//! An escrow-mediated exchange market.
//!
//! A seller deposits a quantity of a fungible "item" asset into a vault owned
//! by a derived, keyless authority; buyers later withdraw items from that
//! vault while paying a price denominated in a second fungible "payment"
//! asset. The library models the three cooperating elements:
//!
//! - [`ledger`]: the value-transfer service — holdings of fungible assets and
//!   an atomic, capability-checked `transfer` between them;
//! - [`ids`]: the deterministic, keyless derivation of a market's vault
//!   authority from its (seller, item-asset, payment-asset) triple and a
//!   caller-chosen disambiguation byte;
//! - [`market`]: the market lifecycle manager — the persistent `Market`
//!   records and the three instructions (`init_market`, `edit_market`,
//!   `buy_item`) that mutate them and orchestrate transfers.

pub mod ids;
pub mod ledger;
pub mod market;

pub use ids::{MarketKey, Principal};
pub use ledger::{Holding, Ledger, TransferError};
pub use market::{BuyItem, EditMarket, ErrorCode, InitMarket, Market, MarketEntry, MarketRegistry};
