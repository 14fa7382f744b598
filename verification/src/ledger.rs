//! The value-transfer service: holdings of fungible assets and the atomic,
//! capability-checked transfer between them.
//!
//! A holding tracks one principal's balance of one asset; a principal that
//! has no recorded holding of an asset has balance zero. `transfer` moves
//! units from one holding to another atomically: it either applies in full
//! or fails with no effect, and it applies only when the authorizing
//! principal is the owner of the source holding.
//!
//! The authorizing principal is taken as already authenticated: the
//! boundary that admits an operation is expected to have checked the
//! caller's signature — or, for a vault authority, to have re-derived it
//! from the triple and the disambiguation byte — before passing it here.

use crate::ids::Principal;
use vstd::prelude::*;

verus! {

/// One principal's balance of one fungible asset.
#[derive(Clone, Copy, PartialEq, Eq, Structural, Debug)]
pub struct Holding {
    /// The principal that owns the balance and alone can authorize
    /// transfers out of it.
    pub owner: Principal,
    /// The fungible asset the balance is denominated in.
    pub asset: u64,
    /// How many whole units the owner holds.
    pub balance: u64,
}

/// Why a transfer or credit was refused. A refused operation has no effect.
#[derive(Clone, Copy, PartialEq, Eq, Structural, Debug)]
pub enum TransferError {
    /// The authorizing principal is not the owner of the source holding.
    Unauthorized,
    /// The source holding's balance is smaller than the amount.
    InsufficientFunds,
    /// The destination balance would exceed the largest representable value.
    BalanceOverflow,
}

/// The ledger of all holdings.
pub struct Ledger {
    holdings: Vec<Holding>,
}

/// The balance recorded for `(owner, asset)` in `s`: the balance of the
/// first holding with that owner and asset, or zero when there is none.
spec fn bal_in(s: Seq<Holding>, owner: Principal, asset: u64) -> u64
    decreases s.len(),
{
    if s.len() == 0 {
        0
    } else if s[0].owner == owner && s[0].asset == asset {
        s[0].balance
    } else {
        bal_in(s.subrange(1, s.len() as int), owner, asset)
    }
}

proof fn lemma_bal_no_match(s: Seq<Holding>, owner: Principal, asset: u64)
    requires
        forall|k: int| 0 <= k < s.len() ==> !(s[k].owner == owner && s[k].asset == asset),
    ensures
        bal_in(s, owner, asset) == 0,
    decreases s.len(),
{
    if s.len() > 0 {
        lemma_bal_no_match(s.subrange(1, s.len() as int), owner, asset);
    }
}

proof fn lemma_bal_first_match(s: Seq<Holding>, owner: Principal, asset: u64, j: int)
    requires
        0 <= j < s.len(),
        s[j].owner == owner && s[j].asset == asset,
        forall|k: int| 0 <= k < j ==> !(s[k].owner == owner && s[k].asset == asset),
    ensures
        bal_in(s, owner, asset) == s[j].balance,
    decreases j,
{
    if j > 0 {
        lemma_bal_first_match(s.subrange(1, s.len() as int), owner, asset, j - 1);
    }
}

proof fn lemma_bal_update(s: Seq<Holding>, j: int, h2: Holding, o2: Principal, a2: u64)
    requires
        0 <= j < s.len(),
        h2.owner == s[j].owner,
        h2.asset == s[j].asset,
        forall|k: int| 0 <= k < j ==> !(s[k].owner == s[j].owner && s[k].asset == s[j].asset),
    ensures
        bal_in(s.update(j, h2), o2, a2) == if o2 == h2.owner && a2 == h2.asset {
            h2.balance
        } else {
            bal_in(s, o2, a2)
        },
    decreases j,
{
    let t = s.update(j, h2);
    if j == 0 {
        assert(t.subrange(1, t.len() as int) =~= s.subrange(1, s.len() as int));
    } else {
        assert(t.subrange(1, t.len() as int) =~= s.subrange(1, s.len() as int).update(j - 1, h2));
        lemma_bal_update(s.subrange(1, s.len() as int), j - 1, h2, o2, a2);
    }
}

proof fn lemma_bal_push_fresh(s: Seq<Holding>, h: Holding, o2: Principal, a2: u64)
    requires
        forall|k: int| 0 <= k < s.len() ==> !(s[k].owner == h.owner && s[k].asset == h.asset),
    ensures
        bal_in(s.push(h), o2, a2) == if o2 == h.owner && a2 == h.asset {
            h.balance
        } else {
            bal_in(s, o2, a2)
        },
    decreases s.len(),
{
    let t = s.push(h);
    if s.len() == 0 {
        lemma_bal_no_match(t.subrange(1, t.len() as int), o2, a2);
        lemma_bal_no_match(s, o2, a2);
    } else {
        assert(t.subrange(1, t.len() as int) =~= s.subrange(1, s.len() as int).push(h));
        lemma_bal_push_fresh(s.subrange(1, s.len() as int), h, o2, a2);
    }
}

impl Ledger {
    /// The balance of `owner`'s holding of `asset`; zero when no such
    /// holding exists.
    pub closed spec fn bal(self, owner: Principal, asset: u64) -> u64 {
        bal_in(self.holdings@, owner, asset)
    }

    /// An empty ledger: every balance is zero.
    pub fn new() -> (l: Ledger)
        ensures
            forall|o: Principal, a: u64| #[trigger] l.bal(o, a) == 0,
    {
        Ledger { holdings: Vec::new() }
    }

    /// Index of the holding for `(owner, asset)`, if one exists.
    fn find_holding(&self, owner: &Principal, asset: u64) -> (r: Option<usize>)
        ensures
            match r {
                Some(j) => j < self.holdings@.len() && self.holdings@[j as int].owner == *owner
                    && self.holdings@[j as int].asset == asset && forall|k: int|
                    0 <= k < j ==> !(self.holdings@[k].owner == *owner && self.holdings@[k].asset
                        == asset),
                None => forall|k: int|
                    0 <= k < self.holdings@.len() ==> !(self.holdings@[k].owner == *owner
                        && self.holdings@[k].asset == asset),
            },
    {
        let mut i: usize = 0;
        while i < self.holdings.len()
            invariant
                i <= self.holdings@.len(),
                forall|k: int|
                    0 <= k < i ==> !(self.holdings@[k].owner == *owner && self.holdings@[k].asset
                        == asset),
            decreases self.holdings@.len() - i,
        {
            if self.holdings[i].owner == *owner && self.holdings[i].asset == asset {
                return Some(i);
            }
            i = i + 1;
        }
        None
    }

    /// Reads the balance of `owner`'s holding of `asset`.
    pub fn balance_of(&self, owner: Principal, asset: u64) -> (r: u64)
        ensures
            r == self.bal(owner, asset),
    {
        match self.find_holding(&owner, asset) {
            Some(j) => {
                proof {
                    lemma_bal_first_match(self.holdings@, owner, asset, j as int);
                }
                self.holdings[j].balance
            },
            None => {
                proof {
                    lemma_bal_no_match(self.holdings@, owner, asset);
                }
                0
            },
        }
    }

    /// Sets the balance of `(owner, asset)` to `new_balance`, creating the
    /// holding when absent; every other balance is untouched.
    fn set_balance(&mut self, owner: Principal, asset: u64, new_balance: u64)
        ensures
            forall|o2: Principal, a2: u64|
                #[trigger] final(self).bal(o2, a2) == if o2 == owner && a2 == asset {
                    new_balance
                } else {
                    old(self).bal(o2, a2)
                },
    {
        match self.find_holding(&owner, asset) {
            Some(j) => {
                let h = Holding { owner, asset, balance: new_balance };
                self.holdings.set(j, h);
                proof {
                    assert forall|o2: Principal, a2: u64|
                        #[trigger] self.bal(o2, a2) == if o2 == owner && a2 == asset {
                            new_balance
                        } else {
                            old(self).bal(o2, a2)
                        } by {
                        lemma_bal_update(old(self).holdings@, j as int, h, o2, a2);
                    }
                }
            },
            None => {
                let h = Holding { owner, asset, balance: new_balance };
                self.holdings.push(h);
                proof {
                    assert forall|o2: Principal, a2: u64|
                        #[trigger] self.bal(o2, a2) == if o2 == owner && a2 == asset {
                            new_balance
                        } else {
                            old(self).bal(o2, a2)
                        } by {
                        lemma_bal_push_fresh(old(self).holdings@, h, o2, a2);
                    }
                }
            },
        }
    }

    /// Brings `amount` fresh units of `asset` into `owner`'s holding. This
    /// is the funding hook of the surrounding ledger (minting and balance
    /// bookkeeping sit outside the market core); it fails only when the
    /// balance would exceed the largest representable value, and a failed
    /// credit has no effect.
    pub fn credit(&mut self, owner: Principal, asset: u64, amount: u64) -> (r: Result<
        (),
        TransferError,
    >)
        ensures
            r == Ok::<(), TransferError>(()) <==> old(self).bal(owner, asset) + amount
                <= u64::MAX,
            r is Err ==> r == Err::<(), TransferError>(TransferError::BalanceOverflow)
                && *final(self) == *old(self),
            r is Ok ==> forall|o2: Principal, a2: u64|
                #[trigger] final(self).bal(o2, a2) as int == old(self).bal(o2, a2) + (
                if o2 == owner && a2 == asset {
                    amount as int
                } else {
                    0
                }),
    {
        let b = self.balance_of(owner, asset);
        if amount > u64::MAX - b {
            return Err(TransferError::BalanceOverflow);
        }
        self.set_balance(owner, asset, b + amount);
        Ok(())
    }

    /// Atomically moves `amount` units of `asset` from `from` to `to`.
    ///
    /// The move applies exactly when `authorizing` is the owner of the
    /// source holding, the source balance covers `amount`, and the
    /// destination balance does not overflow; otherwise nothing changes and
    /// the error says which condition failed. A transfer never partially
    /// applies.
    pub fn transfer(
        &mut self,
        from: Principal,
        to: Principal,
        authorizing: Principal,
        asset: u64,
        amount: u64,
    ) -> (r: Result<(), TransferError>)
        ensures
            r == Ok::<(), TransferError>(()) <==> (authorizing == from && old(self).bal(
                from,
                asset,
            ) >= amount && (from == to || old(self).bal(to, asset) + amount <= u64::MAX)),
            r is Err ==> *final(self) == *old(self),
            r == Err::<(), TransferError>(TransferError::Unauthorized) <==> authorizing != from,
            r == Err::<(), TransferError>(TransferError::InsufficientFunds) <==> (authorizing
                == from && old(self).bal(from, asset) < amount),
            r == Err::<(), TransferError>(TransferError::BalanceOverflow) <==> (authorizing == from
                && old(self).bal(from, asset) >= amount && from != to && old(self).bal(to, asset)
                + amount > u64::MAX),
            r is Ok ==> forall|o2: Principal, a2: u64|
                #[trigger] final(self).bal(o2, a2) as int == old(self).bal(o2, a2) - (
                if o2 == from && a2 == asset {
                    amount as int
                } else {
                    0
                }) + (
                if o2 == to && a2 == asset {
                    amount as int
                } else {
                    0
                }),
    {
        if authorizing != from {
            return Err(TransferError::Unauthorized);
        }
        let fb = self.balance_of(from, asset);
        if fb < amount {
            return Err(TransferError::InsufficientFunds);
        }
        if from == to {
            return Ok(());
        }
        let tb = self.balance_of(to, asset);
        if amount > u64::MAX - tb {
            return Err(TransferError::BalanceOverflow);
        }
        self.set_balance(from, asset, fb - amount);
        self.set_balance(to, asset, tb + amount);
        Ok(())
    }
}

} // verus!
