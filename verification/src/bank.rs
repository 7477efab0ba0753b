use vstd::prelude::*;

use crate::errors::DealForgeError;
use crate::table::{
    has_key, lemma_map_of_at, lemma_map_of_dom, lemma_map_of_empty, lemma_map_of_push,
    lemma_map_of_remove, lemma_map_of_update, map_of, uniq_keys,
};

verus! {

// The fungible-token ledger: per-(holder, mint) accounts, a transfer
// primitive, and a close primitive.  The escrow moves funds exclusively
// through this module, presenting either a user's signature or the
// protocol-derived authority of one offer's custody vault.

/// The identity a token account belongs to.
///
/// Custody vaults live in a namespace of their own, addressed by the offer
/// they are bound to, so a vault address can be computed by any observer
/// and can never collide with a user's account.
#[derive(Clone, Copy, Debug, PartialEq, Eq, Structural)]
pub enum Holder {
    /// An account held by a key-carrying identity (a maker or a taker).
    User(u64),
    /// The custody account bound to the offer `(maker, id)`.
    Vault { maker: u64, id: u64 },
}

/// Evidence presented to the ledger that a movement is authorized.
///
/// `Signer` stands for a cryptographic signature of a user's key.
/// `Derived` is the capability that only the protocol can produce, bound to
/// one offer; it is what lets the fulfill and cancel paths move vault funds
/// while no human key can.
#[derive(Clone, Copy, Debug, PartialEq, Eq, Structural)]
pub enum Authority {
    /// A signature by the user holding the given key.
    Signer(u64),
    /// The protocol's signing capability for the vault of offer
    /// `(maker, id)`.
    Derived { maker: u64, id: u64 },
}

/// Which accounts an authority may debit or close: a signature controls
/// exactly that user's accounts, a derived capability controls exactly the
/// vault it was derived for.
pub open spec fn authorizes(a: Authority, h: Holder) -> bool {
    match (a, h) {
        (Authority::Signer(k), Holder::User(u)) => k == u,
        (Authority::Derived { maker: am, id: ai }, Holder::Vault { maker: hm, id: hi }) => am == hm
            && ai == hi,
        _ => false,
    }
}

/// Runtime check of [`authorizes`].
pub fn check_authority(a: Authority, h: Holder) -> (r: bool)
    ensures
        r == authorizes(a, h),
{
    match (a, h) {
        (Authority::Signer(k), Holder::User(u)) => k == u,
        (Authority::Derived { maker: am, id: ai }, Holder::Vault { maker: hm, id: hi }) => am == hm
            && ai == hi,
        _ => false,
    }
}

/// Derives the custody address and the protocol signing capability bound to
/// the offer `(maker, id)`.  The derivation is deterministic, so clients can
/// compute a vault's address without a lookup, and injective, so vaults of
/// distinct offers never share an account.
pub fn derive_vault(maker: u64, id: u64) -> (r: (Holder, Authority))
    ensures
        r.0 == (Holder::Vault { maker, id }),
        r.1 == (Authority::Derived { maker, id }),
{
    (Holder::Vault { maker, id }, Authority::Derived { maker, id })
}

/// One token account: `amount` units of `mint` held by `holder`.
#[derive(Clone, Copy, Debug, PartialEq, Eq, Structural)]
pub struct TokenAccount {
    pub holder: Holder,
    pub mint: u64,
    pub amount: u64,
}

/// The key under which an account record is stored.
pub open spec fn acct_keyf() -> spec_fn(TokenAccount) -> (Holder, u64) {
    |a: TokenAccount| (a.holder, a.mint)
}

/// The value an account record carries.
pub open spec fn acct_valf() -> spec_fn(TokenAccount) -> u64 {
    |a: TokenAccount| a.amount
}

/// The ledger as contracts see it: which accounts exist, and what they hold.
pub type Balances = Map<(Holder, u64), u64>;

/// The balance a holder has in a mint; absent accounts hold zero.
pub open spec fn bal(m: Balances, h: Holder, mint: u64) -> u64 {
    if m.dom().contains((h, mint)) {
        m[(h, mint)]
    } else {
        0
    }
}

/// When a transfer goes through: the authority controls the source, the
/// source covers the amount, and the credit does not overflow the
/// destination.  A self-transfer moves nothing and cannot overflow.
pub open spec fn can_transfer(
    m: Balances,
    from: Holder,
    to: Holder,
    mint: u64,
    amount: u64,
    a: Authority,
) -> bool {
    &&& authorizes(a, from)
    &&& amount <= bal(m, from, mint)
    &&& (from == to || bal(m, to, mint) + amount <= u64::MAX)
}

/// The error a refused transfer reports, in the order the checks run.
pub open spec fn transfer_err(
    m: Balances,
    from: Holder,
    to: Holder,
    mint: u64,
    amount: u64,
    a: Authority,
) -> DealForgeError {
    if !authorizes(a, from) {
        DealForgeError::TransferFailed
    } else if bal(m, from, mint) < amount {
        DealForgeError::InsufficientBalance
    } else {
        DealForgeError::CalculationOverflow
    }
}

/// The ledger after a successful transfer.  The destination account is
/// created when missing, as associated accounts are provisioned on demand.
pub open spec fn apply_transfer(
    m: Balances,
    from: Holder,
    to: Holder,
    mint: u64,
    amount: u64,
) -> Balances {
    if from == to {
        m.insert((from, mint), bal(m, from, mint))
    } else {
        m.insert((from, mint), (bal(m, from, mint) - amount) as u64).insert(
            (to, mint),
            (bal(m, to, mint) + amount) as u64,
        )
    }
}

/// When an account may be closed: its controller asks, the account exists,
/// and every unit has already been transferred out.
pub open spec fn can_close(m: Balances, h: Holder, mint: u64, a: Authority) -> bool {
    authorizes(a, h) && m.dom().contains((h, mint)) && m[(h, mint)] == 0
}

/// The token ledger.  Each `(holder, mint)` pair has at most one account.
pub struct Bank {
    accounts: Vec<TokenAccount>,
}

impl View for Bank {
    type V = Balances;

    closed spec fn view(&self) -> Balances {
        map_of(self.accounts@, acct_keyf(), acct_valf())
    }
}

impl Bank {
    /// At most one account per `(holder, mint)` pair.
    pub closed spec fn wf(&self) -> bool {
        uniq_keys(self.accounts@, acct_keyf())
    }

    /// An empty ledger: no accounts at all.
    pub fn new() -> (b: Bank)
        ensures
            b.wf(),
            b@ == Map::<(Holder, u64), u64>::empty(),
    {
        let b = Bank { accounts: Vec::new() };
        proof {
            lemma_map_of_empty(b.accounts@, acct_keyf(), acct_valf());
        }
        b
    }

    /// The position of the account of `h` in `mint`, if present.
    fn find(&self, h: Holder, mint: u64) -> (r: Option<usize>)
        ensures
            (match r {
                Some(i) => i < self.accounts@.len() && self.accounts@[i as int].holder == h
                    && self.accounts@[i as int].mint == mint,
                None => !has_key(self.accounts@, acct_keyf(), (h, mint)),
            }),
    {
        let n = self.accounts.len();
        let mut i: usize = 0;
        while i < n
            invariant
                n == self.accounts@.len(),
                i <= n,
                forall|j: int|
                    0 <= j < i ==> !(self.accounts@[j].holder == h && self.accounts@[j].mint
                        == mint),
            decreases n - i,
        {
            let a = self.accounts[i];
            if a.holder == h && a.mint == mint {
                return Some(i);
            }
            i = i + 1;
        }
        proof {
            assert forall|j: int| 0 <= j < self.accounts@.len() implies acct_keyf()(
                self.accounts@[j],
            ) != (h, mint) by {
                assert(acct_keyf()(self.accounts@[j]) == (
                    self.accounts@[j].holder,
                    self.accounts@[j].mint,
                ));
            }
        }
        None
    }

    /// The balance of `h` in `mint`; zero when no account exists.
    pub fn balance_of(&self, h: Holder, mint: u64) -> (r: u64)
        requires
            self.wf(),
        ensures
            r == bal(self@, h, mint),
    {
        match self.find(h, mint) {
            Some(i) => {
                proof {
                    assert(acct_keyf()(self.accounts@[i as int]) == (h, mint));
                    assert(acct_valf()(self.accounts@[i as int]) == self.accounts@[i as int].amount);
                    lemma_map_of_at(self.accounts@, acct_keyf(), acct_valf(), i as int);
                }
                self.accounts[i].amount
            },
            None => {
                proof {
                    lemma_map_of_dom(self.accounts@, acct_keyf(), acct_valf(), (h, mint));
                }
                0
            },
        }
    }

    /// Whether an account of `h` in `mint` exists, even with balance zero.
    pub fn account_exists(&self, h: Holder, mint: u64) -> (r: bool)
        requires
            self.wf(),
        ensures
            r == self@.dom().contains((h, mint)),
    {
        match self.find(h, mint) {
            Some(i) => {
                proof {
                    assert(acct_keyf()(self.accounts@[i as int]) == (h, mint));
                    lemma_map_of_at(self.accounts@, acct_keyf(), acct_valf(), i as int);
                }
                true
            },
            None => {
                proof {
                    lemma_map_of_dom(self.accounts@, acct_keyf(), acct_valf(), (h, mint));
                }
                false
            },
        }
    }

    /// Finds the account of `h` in `mint`, creating it empty when missing,
    /// and returns its position.
    fn ensure_account(&mut self, h: Holder, mint: u64) -> (i: usize)
        requires
            old(self).wf(),
        ensures
            final(self).wf(),
            i < final(self).accounts@.len(),
            final(self).accounts@[i as int].holder == h,
            final(self).accounts@[i as int].mint == mint,
            final(self).accounts@[i as int].amount == bal(old(self)@, h, mint),
            final(self)@ == old(self)@.insert((h, mint), bal(old(self)@, h, mint)),
    {
        match self.find(h, mint) {
            Some(i) => {
                proof {
                    assert(acct_keyf()(self.accounts@[i as int]) == (h, mint));
                    assert(acct_valf()(self.accounts@[i as int]) == self.accounts@[i as int].amount);
                    lemma_map_of_at(self.accounts@, acct_keyf(), acct_valf(), i as int);
                    assert(old(self)@.insert((h, mint), bal(old(self)@, h, mint)) =~= old(self)@);
                }
                i
            },
            None => {
                let t = TokenAccount { holder: h, mint, amount: 0 };
                proof {
                    assert(acct_keyf()(t) == (h, mint));
                    assert(acct_valf()(t) == 0);
                    lemma_map_of_dom(self.accounts@, acct_keyf(), acct_valf(), (h, mint));
                    lemma_map_of_push(self.accounts@, acct_keyf(), acct_valf(), t);
                }
                self.accounts.push(t);
                self.accounts.len() - 1
            },
        }
    }

    /// Overwrites the amount of the account at position `i`.
    fn set_amount(&mut self, i: usize, amount: u64)
        requires
            old(self).wf(),
            i < old(self).accounts@.len(),
        ensures
            final(self).wf(),
            final(self)@ == old(self)@.insert(
                (old(self).accounts@[i as int].holder, old(self).accounts@[i as int].mint),
                amount,
            ),
    {
        let h = self.accounts[i].holder;
        let m = self.accounts[i].mint;
        let t = TokenAccount { holder: h, mint: m, amount };
        proof {
            assert(acct_keyf()(t) == (h, m));
            assert(acct_keyf()(self.accounts@[i as int]) == (h, m));
            assert(acct_valf()(t) == amount);
            lemma_map_of_update(self.accounts@, acct_keyf(), acct_valf(), i as int, t);
        }
        self.accounts[i] = t;
    }

    /// Credits `amount` fresh units of `mint` to `to`, creating the account
    /// when missing.  This stands for the asset issuer's own emission; the
    /// escrow operations never call it.
    pub fn mint_to(&mut self, to: Holder, mint: u64, amount: u64) -> (r: Result<
        (),
        DealForgeError,
    >)
        requires
            old(self).wf(),
        ensures
            final(self).wf(),
            (match r {
                Ok(_) => bal(old(self)@, to, mint) + amount <= u64::MAX && final(self)@
                    == old(self)@.insert((to, mint), (bal(old(self)@, to, mint) + amount) as u64),
                Err(e) => bal(old(self)@, to, mint) + amount > u64::MAX && e
                    == DealForgeError::CalculationOverflow && final(self)@ == old(self)@,
            }),
    {
        let tb = self.balance_of(to, mint);
        if tb > u64::MAX - amount {
            return Err(DealForgeError::CalculationOverflow);
        }
        let ghost v0 = self@;
        let i = self.ensure_account(to, mint);
        self.set_amount(i, tb + amount);
        proof {
            assert(self@ =~= v0.insert((to, mint), (tb + amount) as u64));
        }
        Ok(())
    }

    /// Moves `amount` units of `mint` from `from` to `to`, provided
    /// `authority` controls the source.  All checks precede any change: a
    /// refused transfer leaves the ledger untouched.
    pub fn transfer_tokens(
        &mut self,
        from: Holder,
        to: Holder,
        amount: u64,
        mint: u64,
        authority: Authority,
    ) -> (r: Result<(), DealForgeError>)
        requires
            old(self).wf(),
        ensures
            final(self).wf(),
            (match r {
                Ok(_) => can_transfer(old(self)@, from, to, mint, amount, authority)
                    && final(self)@ == apply_transfer(old(self)@, from, to, mint, amount),
                Err(e) => !can_transfer(old(self)@, from, to, mint, amount, authority) && e
                    == transfer_err(old(self)@, from, to, mint, amount, authority) && final(self)@
                    == old(self)@,
            }),
    {
        if !check_authority(authority, from) {
            return Err(DealForgeError::TransferFailed);
        }
        let fb = self.balance_of(from, mint);
        if fb < amount {
            return Err(DealForgeError::InsufficientBalance);
        }
        if from == to {
            let ghost v0 = self@;
            let _ = self.ensure_account(from, mint);
            proof {
                assert(self@ =~= apply_transfer(v0, from, to, mint, amount));
            }
            return Ok(());
        }
        let tb = self.balance_of(to, mint);
        if tb > u64::MAX - amount {
            return Err(DealForgeError::CalculationOverflow);
        }
        let ghost v0 = self@;
        let fi = self.ensure_account(from, mint);
        self.set_amount(fi, fb - amount);
        let ti = self.ensure_account(to, mint);
        self.set_amount(ti, tb + amount);
        proof {
            assert(self@ =~= apply_transfer(v0, from, to, mint, amount));
        }
        Ok(())
    }

    /// Deletes the account of `h` in `mint`, provided `authority` controls
    /// it and its balance has been fully transferred out.
    pub fn close_token_account(&mut self, h: Holder, mint: u64, authority: Authority) -> (r: Result<
        (),
        DealForgeError,
    >)
        requires
            old(self).wf(),
        ensures
            final(self).wf(),
            (match r {
                Ok(_) => can_close(old(self)@, h, mint, authority) && final(self)@
                    == old(self)@.remove((h, mint)),
                Err(e) => !can_close(old(self)@, h, mint, authority) && e
                    == DealForgeError::TransferFailed && final(self)@ == old(self)@,
            }),
    {
        if !check_authority(authority, h) {
            return Err(DealForgeError::TransferFailed);
        }
        match self.find(h, mint) {
            None => {
                proof {
                    lemma_map_of_dom(self.accounts@, acct_keyf(), acct_valf(), (h, mint));
                }
                Err(DealForgeError::TransferFailed)
            },
            Some(i) => {
                proof {
                    assert(acct_keyf()(self.accounts@[i as int]) == (h, mint));
                    assert(acct_valf()(self.accounts@[i as int]) == self.accounts@[i as int].amount);
                    lemma_map_of_at(self.accounts@, acct_keyf(), acct_valf(), i as int);
                }
                if self.accounts[i].amount != 0 {
                    return Err(DealForgeError::TransferFailed);
                }
                proof {
                    lemma_map_of_remove(self.accounts@, acct_keyf(), acct_valf(), i as int);
                }
                self.accounts.remove(i);
                Ok(())
            },
        }
    }
}

} // verus!
