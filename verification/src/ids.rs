//! Market identity and vault authority derivation.
//!
//! A market is identified by the triple (seller, item asset, payment asset).
//! The vault that custodies deposited items is owned not by a key-holding
//! identity but by a *derived authority*: a value computed deterministically
//! from the triple plus a caller-chosen disambiguation byte. Anyone can
//! recompute it, yet it authorizes transfers only through this same
//! derivation path — a capability proved by recomputation, with no secret
//! material anywhere.

use vstd::prelude::*;

verus! {

/// The (seller, item-asset, payment-asset) triple that identifies one market.
///
/// Two markets with the same triple are the same record: lookup is computed
/// from the triple, never stored in a separate index.
#[derive(Clone, Copy, PartialEq, Eq, Structural, Debug)]
pub struct MarketKey {
    /// Identity of the seller who created the market.
    pub seller: u64,
    /// Identity of the fungible asset sold out of the vault.
    pub item_asset: u64,
    /// Identity of the fungible asset in which the price is paid.
    pub payment_asset: u64,
}

/// A principal that can own holdings and authorize transfers.
#[derive(Clone, Copy, PartialEq, Eq, Structural, Debug)]
pub enum Principal {
    /// An ordinary identity that authorizes by holding its own key.
    User(u64),
    /// The keyless vault authority of one market: reproducible by anyone who
    /// knows the triple and the disambiguation byte fixed at creation, and
    /// usable as an authorizing principal only through that derivation.
    Vault(MarketKey, u8),
}

/// Derives the vault authority for a market: a pure function of the triple
/// and the caller-chosen disambiguation byte, with no secret material.
///
/// The byte is fixed at creation time and must be supplied again on every
/// later operation that needs the same authority.
pub fn derive_vault_authority(seller: u64, item_asset: u64, payment_asset: u64, bump: u8) -> (p:
    Principal)
    ensures
        p == Principal::Vault(MarketKey { seller, item_asset, payment_asset }, bump),
{
    Principal::Vault(MarketKey { seller, item_asset, payment_asset }, bump)
}

/// Law: the derivation is injective — two derived authorities are equal
/// exactly when every component of their inputs is equal, so no two distinct
/// (seller, item-asset, payment-asset, byte) combinations collide, and a
/// derived authority never equals an ordinary user principal.
pub proof fn lemma_authority_injective(k1: MarketKey, b1: u8, k2: MarketKey, b2: u8, u: u64)
    ensures
        (Principal::Vault(k1, b1) == Principal::Vault(k2, b2)) <==> (k1.seller == k2.seller
            && k1.item_asset == k2.item_asset && k1.payment_asset == k2.payment_asset && b1 == b2),
        Principal::Vault(k1, b1) != Principal::User(u),
{
}

} // verus!
