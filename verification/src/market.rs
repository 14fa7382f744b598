//! The market lifecycle manager: the persistent `Market` records and the
//! three instructions that mutate them and orchestrate transfers.
//!
//! A market is created once per (seller, item-asset, payment-asset) triple
//! with a deposit of items into its vault, reconfigured (price, active flag)
//! only by its seller, and purchased from while active. Every instruction
//! either fully applies or fails with one symbolic error and no state
//! change.

use crate::ids::{MarketKey, Principal};
use crate::ledger::Ledger;
use vstd::prelude::*;

verus! {

/// The sole persistent record of one market.
///
/// The vault's item balance is the single source of truth for the quantity
/// available; the record never mirrors it.
#[derive(Clone, Copy, PartialEq, Eq, Structural, Debug)]
pub struct Market {
    /// Whether purchases are permitted.
    pub active: bool,
    /// Payment-asset units required per one item-asset unit.
    pub price: u64,
}

impl Default for Market {
    /// A blank record: inactive, price zero.
    fn default() -> (r: Market)
        ensures
            r.active == false,
            r.price == 0,
    {
        Market { active: false, price: 0 }
    }
}

/// A market record together with the identity it is stored under: its triple
/// and the disambiguation byte fixed at creation.
#[derive(Clone, Copy, PartialEq, Eq, Structural, Debug)]
pub struct MarketEntry {
    /// The (seller, item-asset, payment-asset) triple.
    pub key: MarketKey,
    /// The disambiguation byte chosen by the seller at creation; the vault
    /// authority is derived from the triple plus this byte.
    pub bump: u8,
    /// The mutable record.
    pub market: Market,
}

/// The parties and assets named by an `init_market` call: the seller who
/// signs, the item asset deposited, and the payment asset the price is
/// denominated in.
#[derive(Clone, Copy, PartialEq, Eq, Structural, Debug)]
pub struct InitMarket {
    /// The seller creating the market; the authenticated caller.
    pub creator: u64,
    /// The item asset (whole units only).
    pub item: u64,
    /// The payment asset (whole units only).
    pub token: u64,
}

/// The parties and assets named by an `edit_market` call.
#[derive(Clone, Copy, PartialEq, Eq, Structural, Debug)]
pub struct EditMarket {
    /// The seller; the authenticated caller. Only the matching triple
    /// resolves to a record, so an impostor cannot name a record they do
    /// not own.
    pub creator: u64,
    /// The item asset of the triple.
    pub item: u64,
    /// The payment asset of the triple.
    pub token: u64,
}

/// The parties and assets named by a `buy_item` call.
#[derive(Clone, Copy, PartialEq, Eq, Structural, Debug)]
pub struct BuyItem {
    /// The buyer; the authenticated caller.
    pub buyer: u64,
    /// The seller whose market is bought from.
    pub creator: u64,
    /// The item asset of the triple.
    pub item: u64,
    /// The payment asset of the triple.
    pub token: u64,
}

/// Why an instruction was refused. A refused instruction has no effect.
#[derive(Clone, Copy, PartialEq, Eq, Structural, Debug)]
pub enum ErrorCode {
    /// `buy_item` against a market whose `active` flag is off.
    MarketNotActive,
    /// `buy_item` asking for more items than the vault holds.
    MarketDepleted,
    /// `init_market` for a triple that already has a record.
    MarketAlreadyExists,
    /// `edit_market` or `buy_item` for a triple with no record.
    MarketNotFound,
    /// The supplied disambiguation byte does not reproduce the vault
    /// authority fixed at creation.
    Unauthorized,
    /// The value-transfer service refused a transfer (insufficient funds or
    /// a balance at its representable limit).
    TransferFailed,
    /// `price * item_quantity` exceeds the largest representable value;
    /// the purchase is refused rather than silently wrapped.
    PriceOverflow,
}

impl InitMarket {
    /// The triple this call resolves to.
    pub open spec fn key(self) -> MarketKey {
        MarketKey { seller: self.creator, item_asset: self.item, payment_asset: self.token }
    }
}

impl EditMarket {
    /// The triple this call resolves to.
    pub open spec fn key(self) -> MarketKey {
        MarketKey { seller: self.creator, item_asset: self.item, payment_asset: self.token }
    }
}

impl BuyItem {
    /// The triple this call resolves to.
    pub open spec fn key(self) -> MarketKey {
        MarketKey { seller: self.creator, item_asset: self.item, payment_asset: self.token }
    }
}

/// All market records, addressed by their triple.
pub struct MarketRegistry {
    entries: Vec<MarketEntry>,
}

/// The entry stored under `key` in `s`: the first entry with that key, or
/// none.
spec fn entry_in(s: Seq<MarketEntry>, key: MarketKey) -> Option<MarketEntry>
    decreases s.len(),
{
    if s.len() == 0 {
        None
    } else if s[0].key == key {
        Some(s[0])
    } else {
        entry_in(s.subrange(1, s.len() as int), key)
    }
}

proof fn lemma_entry_no_match(s: Seq<MarketEntry>, key: MarketKey)
    requires
        forall|k: int| 0 <= k < s.len() ==> s[k].key != key,
    ensures
        entry_in(s, key) is None,
    decreases s.len(),
{
    if s.len() > 0 {
        lemma_entry_no_match(s.subrange(1, s.len() as int), key);
    }
}

proof fn lemma_entry_first_match(s: Seq<MarketEntry>, key: MarketKey, j: int)
    requires
        0 <= j < s.len(),
        s[j].key == key,
        forall|k: int| 0 <= k < j ==> s[k].key != key,
    ensures
        entry_in(s, key) == Some(s[j]),
    decreases j,
{
    if j > 0 {
        lemma_entry_first_match(s.subrange(1, s.len() as int), key, j - 1);
    }
}

proof fn lemma_entry_update(s: Seq<MarketEntry>, j: int, e2: MarketEntry, k2: MarketKey)
    requires
        0 <= j < s.len(),
        e2.key == s[j].key,
        forall|k: int| 0 <= k < j ==> s[k].key != s[j].key,
    ensures
        entry_in(s.update(j, e2), k2) == if k2 == e2.key {
            Some(e2)
        } else {
            entry_in(s, k2)
        },
    decreases j,
{
    let t = s.update(j, e2);
    if j == 0 {
        assert(t.subrange(1, t.len() as int) =~= s.subrange(1, s.len() as int));
    } else {
        assert(t.subrange(1, t.len() as int) =~= s.subrange(1, s.len() as int).update(j - 1, e2));
        lemma_entry_update(s.subrange(1, s.len() as int), j - 1, e2, k2);
    }
}

proof fn lemma_entry_push_fresh(s: Seq<MarketEntry>, e: MarketEntry, k2: MarketKey)
    requires
        forall|k: int| 0 <= k < s.len() ==> s[k].key != e.key,
    ensures
        entry_in(s.push(e), k2) == if k2 == e.key {
            Some(e)
        } else {
            entry_in(s, k2)
        },
    decreases s.len(),
{
    let t = s.push(e);
    if s.len() == 0 {
        lemma_entry_no_match(t.subrange(1, t.len() as int), k2);
        lemma_entry_no_match(s, k2);
    } else {
        assert(t.subrange(1, t.len() as int) =~= s.subrange(1, s.len() as int).push(e));
        lemma_entry_push_fresh(s.subrange(1, s.len() as int), e, k2);
    }
}

/// The record that results from a partial update: each field that is
/// present overwrites, each absent field is left untouched.
pub open spec fn edited_market(m: Market, new_active: Option<bool>, new_price: Option<u64>) -> Market {
    Market {
        active: match new_active {
            Some(b) => b,
            None => m.active,
        },
        price: match new_price {
            Some(p) => p,
            None => m.price,
        },
    }
}

/// The outcome `init_market` owes on a given pre-state: refused exactly when
/// the triple already has a record, when the seller's item holding cannot
/// cover the deposit, or when the vault balance would overflow.
pub open spec fn init_outcome(
    reg: MarketRegistry,
    ledger: Ledger,
    accounts: InitMarket,
    bump: u8,
    item_quantity: u64,
) -> Result<(), ErrorCode> {
    let seller = Principal::User(accounts.creator);
    let vault = Principal::Vault(accounts.key(), bump);
    if reg.has_market(accounts.key()) {
        Err(ErrorCode::MarketAlreadyExists)
    } else if ledger.bal(seller, accounts.item) < item_quantity {
        Err(ErrorCode::TransferFailed)
    } else if ledger.bal(vault, accounts.item) + item_quantity > u64::MAX {
        Err(ErrorCode::TransferFailed)
    } else {
        Ok(())
    }
}

/// The outcome `buy_item` owes on a given pre-state, in the order the
/// conditions are checked: the record must exist and be active, the total
/// price must be representable, the supplied byte must reproduce the vault
/// authority, the vault must hold the quantity, and the buyer must be able
/// to pay without either destination balance overflowing.
pub open spec fn buy_outcome(
    reg: MarketRegistry,
    ledger: Ledger,
    accounts: BuyItem,
    bump: u8,
    item_quantity: u64,
) -> Result<(), ErrorCode> {
    let buyer = Principal::User(accounts.buyer);
    let seller = Principal::User(accounts.creator);
    match reg.entry_of(accounts.key()) {
        None => Err(ErrorCode::MarketNotFound),
        Some(e) => {
            let vault = Principal::Vault(accounts.key(), e.bump);
            let total = e.market.price * item_quantity;
            if !e.market.active {
                Err(ErrorCode::MarketNotActive)
            } else if total > u64::MAX {
                Err(ErrorCode::PriceOverflow)
            } else if bump != e.bump {
                Err(ErrorCode::Unauthorized)
            } else if ledger.bal(vault, accounts.item) < item_quantity {
                Err(ErrorCode::MarketDepleted)
            } else if ledger.bal(buyer, accounts.token) < total {
                Err(ErrorCode::TransferFailed)
            } else if ledger.bal(buyer, accounts.item) + item_quantity > u64::MAX {
                Err(ErrorCode::TransferFailed)
            } else if buyer != seller && ledger.bal(seller, accounts.token) + total > u64::MAX {
                Err(ErrorCode::TransferFailed)
            } else {
                Ok(())
            }
        },
    }
}

/// How a successful purchase relates the ledger after (`post`) to the ledger
/// before (`pre`): `qty` item units moved vault to buyer and `total` payment
/// units moved buyer to seller, with every other balance untouched.
pub open spec fn purchase_balances(
    pre: Ledger,
    post: Ledger,
    buyer: Principal,
    seller: Principal,
    vault: Principal,
    item: u64,
    token: u64,
    qty: u64,
    total: int,
) -> bool {
    forall|o: Principal, a: u64|
        #[trigger] post.bal(o, a) as int == pre.bal(o, a) - (
        if o == vault && a == item {
            qty as int
        } else {
            0
        }) + (
        if o == buyer && a == item {
            qty as int
        } else {
            0
        }) - (
        if o == buyer && a == token {
            total
        } else {
            0
        }) + (
        if o == seller && a == token {
            total
        } else {
            0
        })
}

impl MarketRegistry {
    /// The entry stored under `key`, if the triple has a record.
    pub closed spec fn entry_of(self, key: MarketKey) -> Option<MarketEntry> {
        entry_in(self.entries@, key)
    }

    /// Whether the triple has a record.
    pub open spec fn has_market(self, key: MarketKey) -> bool {
        self.entry_of(key) is Some
    }

    /// The record stored under `key`, if the triple has one.
    pub open spec fn market_of(self, key: MarketKey) -> Option<Market> {
        match self.entry_of(key) {
            Some(e) => Some(e.market),
            None => None,
        }
    }

    /// An empty registry: no triple has a record.
    pub fn new() -> (r: MarketRegistry)
        ensures
            forall|k: MarketKey| #[trigger] r.entry_of(k) is None,
    {
        let r = MarketRegistry { entries: Vec::new() };
        proof {
            assert forall|k: MarketKey| #[trigger] r.entry_of(k) is None by {
                lemma_entry_no_match(r.entries@, k);
            }
        }
        r
    }

    /// Index of the entry for `key`, if one exists.
    fn find_entry(&self, key: &MarketKey) -> (r: Option<usize>)
        ensures
            match r {
                Some(j) => j < self.entries@.len() && self.entries@[j as int].key == *key
                    && forall|k: int| 0 <= k < j ==> self.entries@[k].key != *key,
                None => forall|k: int| 0 <= k < self.entries@.len() ==> self.entries@[k].key
                    != *key,
            },
    {
        let mut i: usize = 0;
        while i < self.entries.len()
            invariant
                i <= self.entries@.len(),
                forall|k: int| 0 <= k < i ==> self.entries@[k].key != *key,
            decreases self.entries@.len() - i,
        {
            if self.entries[i].key == *key {
                return Some(i);
            }
            i = i + 1;
        }
        None
    }

    /// Reads the record stored under the triple, if any.
    pub fn get_market(&self, seller: u64, item_asset: u64, payment_asset: u64) -> (r: Option<
        Market,
    >)
        ensures
            r == self.market_of(MarketKey { seller, item_asset, payment_asset }),
    {
        let key = MarketKey { seller, item_asset, payment_asset };
        match self.find_entry(&key) {
            Some(j) => {
                proof {
                    lemma_entry_first_match(self.entries@, key, j as int);
                }
                Some(self.entries[j].market)
            },
            None => {
                proof {
                    lemma_entry_no_match(self.entries@, key);
                }
                None
            },
        }
    }

    /// Creates the market for the caller's triple and deposits
    /// `item_quantity` item units from the seller's holding into the vault
    /// owned by the derived authority.
    ///
    /// Creation and deposit are one atomic unit: either the record exists
    /// afterwards with `active == false` and `price == per_item_price` and
    /// the vault balance has grown by exactly `item_quantity`, or nothing
    /// changed. A triple that already has a record is always refused with
    /// `MarketAlreadyExists`, whatever the byte and quantities; a fresh
    /// triple succeeds exactly when the seller's item holding covers the
    /// deposit and the vault balance does not overflow.
    pub fn init_market(
        &mut self,
        ledger: &mut Ledger,
        accounts: InitMarket,
        bump: u8,
        item_quantity: u64,
        per_item_price: u64,
    ) -> (r: Result<(), ErrorCode>)
        ensures
            r == init_outcome(*old(self), *old(ledger), accounts, bump, item_quantity),
            r is Err ==> *final(self) == *old(self) && *final(ledger) == *old(ledger),
            r is Ok ==> final(self).entry_of(accounts.key()) == Some(
                MarketEntry {
                    key: accounts.key(),
                    bump,
                    market: Market { active: false, price: per_item_price },
                },
            ),
            forall|k2: MarketKey|
                k2 != accounts.key() ==> #[trigger] final(self).entry_of(k2) == old(
                    self,
                ).entry_of(k2),
            r is Ok ==> forall|o2: Principal, a2: u64|
                #[trigger] final(ledger).bal(o2, a2) as int == old(ledger).bal(o2, a2) - (
                if o2 == Principal::User(accounts.creator) && a2 == accounts.item {
                    item_quantity as int
                } else {
                    0
                }) + (
                if o2 == Principal::Vault(accounts.key(), bump) && a2 == accounts.item {
                    item_quantity as int
                } else {
                    0
                }),
    {
        let key = MarketKey {
            seller: accounts.creator,
            item_asset: accounts.item,
            payment_asset: accounts.token,
        };
        match self.find_entry(&key) {
            Some(j) => {
                proof {
                    lemma_entry_first_match(self.entries@, key, j as int);
                }
                Err(ErrorCode::MarketAlreadyExists)
            },
            None => {
                proof {
                    lemma_entry_no_match(self.entries@, key);
                }
                let seller = Principal::User(accounts.creator);
                let vault = crate::ids::derive_vault_authority(
                    accounts.creator,
                    accounts.item,
                    accounts.token,
                    bump,
                );
                match ledger.transfer(seller, vault, seller, accounts.item, item_quantity) {
                    Err(_) => Err(ErrorCode::TransferFailed),
                    Ok(()) => {
                        let e = MarketEntry {
                            key,
                            bump,
                            market: Market { active: false, price: per_item_price },
                        };
                        let ghost pre = self.entries@;
                        self.entries.push(e);
                        proof {
                            assert forall|k2: MarketKey| #[trigger]
                                entry_in(self.entries@, k2) == if k2 == key {
                                    Some(e)
                                } else {
                                    entry_in(pre, k2)
                                } by {
                                lemma_entry_push_fresh(pre, e, k2);
                            }
                        }
                        Ok(())
                    },
                }
            },
        }
    }

    /// Applies a partial update to the caller's market record: each of
    /// `active` / `per_item_price` that is present overwrites the
    /// corresponding field, absent fields are left untouched, and a call
    /// with both absent is a no-op that still succeeds. No transfers occur,
    /// and no other record changes. Fails with `MarketNotFound` exactly
    /// when the triple has no record.
    pub fn edit_market(
        &mut self,
        accounts: EditMarket,
        bump: u8,
        active: Option<bool>,
        per_item_price: Option<u64>,
    ) -> (r: Result<(), ErrorCode>)
        ensures
            r is Ok <==> old(self).has_market(accounts.key()),
            r is Err ==> r == Err::<(), ErrorCode>(ErrorCode::MarketNotFound) && *final(self)
                == *old(self),
            r is Ok ==> match old(self).entry_of(accounts.key()) {
                Some(e) => final(self).entry_of(accounts.key()) == Some(
                    MarketEntry {
                        key: e.key,
                        bump: e.bump,
                        market: edited_market(e.market, active, per_item_price),
                    },
                ),
                None => false,
            },
            forall|k2: MarketKey|
                k2 != accounts.key() ==> #[trigger] final(self).entry_of(k2) == old(
                    self,
                ).entry_of(k2),
    {
        let key = MarketKey {
            seller: accounts.creator,
            item_asset: accounts.item,
            payment_asset: accounts.token,
        };
        match self.find_entry(&key) {
            None => {
                proof {
                    lemma_entry_no_match(self.entries@, key);
                }
                Err(ErrorCode::MarketNotFound)
            },
            Some(j) => {
                proof {
                    lemma_entry_first_match(self.entries@, key, j as int);
                }
                let mut e = self.entries[j];
                if let Some(x) = active {
                    e.market.active = x;
                }
                if let Some(x) = per_item_price {
                    e.market.price = x;
                }
                let ghost pre = self.entries@;
                self.entries.set(j, e);
                proof {
                    assert forall|k2: MarketKey| #[trigger]
                        entry_in(self.entries@, k2) == if k2 == key {
                            Some(e)
                        } else {
                            entry_in(pre, k2)
                        } by {
                        lemma_entry_update(pre, j as int, e, k2);
                    }
                }
                Ok(())
            },
        }
    }

    /// Buys `item_quantity` items from the caller's market: moves the items
    /// vault to buyer, authorized by the vault authority re-derived from
    /// the supplied byte, and moves `price * item_quantity` payment units
    /// buyer to seller, authorized by the buyer.
    ///
    /// Both transfers apply or neither does, and on every refusal — market
    /// missing or inactive, unrepresentable total, wrong byte, depleted
    /// vault, insufficient payment — every balance is exactly as before.
    /// The record itself is never changed by a purchase.
    pub fn buy_item(
        &self,
        ledger: &mut Ledger,
        accounts: BuyItem,
        bump: u8,
        item_quantity: u64,
    ) -> (r: Result<(), ErrorCode>)
        ensures
            r == buy_outcome(*self, *old(ledger), accounts, bump, item_quantity),
            r is Err ==> *final(ledger) == *old(ledger),
            r is Ok ==> match self.entry_of(accounts.key()) {
                Some(e) => purchase_balances(
                    *old(ledger),
                    *final(ledger),
                    Principal::User(accounts.buyer),
                    Principal::User(accounts.creator),
                    Principal::Vault(accounts.key(), e.bump),
                    accounts.item,
                    accounts.token,
                    item_quantity,
                    e.market.price * item_quantity,
                ),
                None => false,
            },
    {
        let key = MarketKey {
            seller: accounts.creator,
            item_asset: accounts.item,
            payment_asset: accounts.token,
        };
        let j = match self.find_entry(&key) {
            None => {
                proof {
                    lemma_entry_no_match(self.entries@, key);
                }
                return Err(ErrorCode::MarketNotFound);
            },
            Some(j) => j,
        };
        proof {
            lemma_entry_first_match(self.entries@, key, j as int);
        }
        let e = self.entries[j];
        if !e.market.active {
            return Err(ErrorCode::MarketNotActive);
        }
        let total = match e.market.price.checked_mul(item_quantity) {
            None => {
                return Err(ErrorCode::PriceOverflow);
            },
            Some(t) => t,
        };
        if bump != e.bump {
            return Err(ErrorCode::Unauthorized);
        }
        let buyer = Principal::User(accounts.buyer);
        let seller = Principal::User(accounts.creator);
        let vault = crate::ids::derive_vault_authority(
            accounts.creator,
            accounts.item,
            accounts.token,
            e.bump,
        );
        let vault_balance = ledger.balance_of(vault, accounts.item);
        if vault_balance < item_quantity {
            return Err(ErrorCode::MarketDepleted);
        }
        if ledger.balance_of(buyer, accounts.token) < total {
            return Err(ErrorCode::TransferFailed);
        }
        if item_quantity > u64::MAX - ledger.balance_of(buyer, accounts.item) {
            return Err(ErrorCode::TransferFailed);
        }
        if buyer != seller && total > u64::MAX - ledger.balance_of(seller, accounts.token) {
            return Err(ErrorCode::TransferFailed);
        }
        let r1 = ledger.transfer(vault, buyer, vault, accounts.item, item_quantity);
        assert(r1 is Ok);
        let ghost mid = *ledger;
        let r2 = ledger.transfer(buyer, seller, buyer, accounts.token, total);
        assert(r2 is Ok);
        proof {
            assert forall|o2: Principal, a2: u64|
                #[trigger] ledger.bal(o2, a2) as int == old(ledger).bal(o2, a2) - (
                if o2 == vault && a2 == accounts.item {
                    item_quantity as int
                } else {
                    0
                }) + (
                if o2 == buyer && a2 == accounts.item {
                    item_quantity as int
                } else {
                    0
                }) - (
                if o2 == buyer && a2 == accounts.token {
                    total as int
                } else {
                    0
                }) + (
                if o2 == seller && a2 == accounts.token {
                    total as int
                } else {
                    0
                }) by {
                assert(mid.bal(o2, a2) as int == old(ledger).bal(o2, a2) - (
                if o2 == vault && a2 == accounts.item {
                    item_quantity as int
                } else {
                    0
                }) + (
                if o2 == buyer && a2 == accounts.item {
                    item_quantity as int
                } else {
                    0
                }));
            }
        }
        Ok(())
    }
}

/// Law: a successful purchase moves value and conserves it. When buyer and
/// seller are distinct parties and the item and payment assets are distinct,
/// the buyer's payment balance falls by exactly the total, the seller's
/// rises by the same amount, the vault's item balance falls by exactly the
/// quantity, the buyer's rises by the same amount, and both the summed
/// (buyer + seller) payment balance and the summed (vault + buyer) item
/// balance are unchanged across the operation.
pub proof fn lemma_purchase_conservation(
    pre: Ledger,
    post: Ledger,
    accounts: BuyItem,
    e: MarketEntry,
    qty: u64,
)
    requires
        accounts.buyer != accounts.creator,
        accounts.item != accounts.token,
        purchase_balances(
            pre,
            post,
            Principal::User(accounts.buyer),
            Principal::User(accounts.creator),
            Principal::Vault(accounts.key(), e.bump),
            accounts.item,
            accounts.token,
            qty,
            e.market.price * qty,
        ),
    ensures
        post.bal(Principal::User(accounts.buyer), accounts.token) as int == pre.bal(
            Principal::User(accounts.buyer),
            accounts.token,
        ) - e.market.price * qty,
        post.bal(Principal::User(accounts.creator), accounts.token) as int == pre.bal(
            Principal::User(accounts.creator),
            accounts.token,
        ) + e.market.price * qty,
        post.bal(Principal::Vault(accounts.key(), e.bump), accounts.item) as int == pre.bal(
            Principal::Vault(accounts.key(), e.bump),
            accounts.item,
        ) - qty,
        post.bal(Principal::User(accounts.buyer), accounts.item) as int == pre.bal(
            Principal::User(accounts.buyer),
            accounts.item,
        ) + qty,
        post.bal(Principal::User(accounts.buyer), accounts.token) as int + post.bal(
            Principal::User(accounts.creator),
            accounts.token,
        ) == pre.bal(Principal::User(accounts.buyer), accounts.token) as int + pre.bal(
            Principal::User(accounts.creator),
            accounts.token,
        ),
        post.bal(Principal::Vault(accounts.key(), e.bump), accounts.item) as int + post.bal(
            Principal::User(accounts.buyer),
            accounts.item,
        ) == pre.bal(Principal::Vault(accounts.key(), e.bump), accounts.item) as int + pre.bal(
            Principal::User(accounts.buyer),
            accounts.item,
        ),
{
}

/// Law: a purchase against an inactive market is refused with
/// `MarketNotActive`, and a refused purchase leaves every balance exactly
/// as it was.
pub proof fn lemma_inactive_purchase_unchanged(
    reg: MarketRegistry,
    pre: Ledger,
    post: Ledger,
    accounts: BuyItem,
    bump: u8,
    qty: u64,
    r: Result<(), ErrorCode>,
)
    requires
        reg.market_of(accounts.key()) matches Some(m) && !m.active,
        r == buy_outcome(reg, pre, accounts, bump, qty),
        r is Err ==> post == pre,
    ensures
        r == Err::<(), ErrorCode>(ErrorCode::MarketNotActive),
        forall|o: Principal, a: u64| #[trigger] post.bal(o, a) == pre.bal(o, a),
{
}

/// Law: a second creation for a triple that already has a record is refused
/// with `MarketAlreadyExists`, whatever the disambiguation byte, quantity or
/// price; and a creation for a fresh triple succeeds whenever the seller's
/// item holding covers the deposit and the vault balance cannot overflow —
/// records under other triples never bear on the outcome.
pub proof fn lemma_create_per_triple(
    reg: MarketRegistry,
    ledger: Ledger,
    accounts: InitMarket,
    bump: u8,
    item_quantity: u64,
)
    ensures
        reg.has_market(accounts.key()) ==> init_outcome(reg, ledger, accounts, bump, item_quantity)
            == Err::<(), ErrorCode>(ErrorCode::MarketAlreadyExists),
        !reg.has_market(accounts.key()) && ledger.bal(Principal::User(accounts.creator), accounts.item)
            >= item_quantity && ledger.bal(Principal::Vault(accounts.key(), bump), accounts.item)
            + item_quantity <= u64::MAX ==> init_outcome(reg, ledger, accounts, bump, item_quantity)
            == Ok::<(), ErrorCode>(()),
{
}

/// Law: the partial update touches only the fields that are present. An
/// update with only a price leaves `active` unchanged, one with only a flag
/// leaves `price` unchanged, and one with neither leaves the record exactly
/// as it was.
pub proof fn lemma_edit_partial_update(m: Market, b: bool, p: u64)
    ensures
        edited_market(m, None, Some(p)) == (Market { active: m.active, price: p }),
        edited_market(m, Some(b), None) == (Market { active: b, price: m.price }),
        edited_market(m, None, None) == m,
{
}

} // verus!
