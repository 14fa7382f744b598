use anker::ids::{derive_vault_authority, MarketKey, Principal};
use anker::ledger::{Ledger, TransferError};
use anker::market::{BuyItem, EditMarket, ErrorCode, InitMarket, Market, MarketRegistry};

fn key(seller: u64, item: u64, token: u64) -> MarketKey {
    MarketKey { seller, item_asset: item, payment_asset: token }
}

/// A seller with items, a buyer with payment funds, and an empty registry.
fn setup() -> (MarketRegistry, Ledger) {
    let reg = MarketRegistry::new();
    let mut led = Ledger::new();
    led.credit(Principal::User(1), 10, 500).unwrap();
    led.credit(Principal::User(2), 20, 1000).unwrap();
    (reg, led)
}

#[test]
fn create_deposits_and_starts_inactive() {
    let (mut reg, mut led) = setup();
    let acc = InitMarket { creator: 1, item: 10, token: 20 };
    let vault = derive_vault_authority(1, 10, 20, 7);
    assert_eq!(led.balance_of(vault, 10), 0);
    assert_eq!(reg.init_market(&mut led, acc, 7, 100, 5), Ok(()));
    assert_eq!(led.balance_of(vault, 10), 100);
    assert_eq!(led.balance_of(Principal::User(1), 10), 400);
    assert_eq!(reg.get_market(1, 10, 20), Some(Market { active: false, price: 5 }));
}

#[test]
fn duplicate_triple_is_rejected_fresh_triple_succeeds() {
    let (mut reg, mut led) = setup();
    let acc = InitMarket { creator: 1, item: 10, token: 20 };
    assert_eq!(reg.init_market(&mut led, acc, 7, 100, 5), Ok(()));
    // Same triple again: refused whatever the byte, quantity or price.
    assert_eq!(
        reg.init_market(&mut led, acc, 9, 1, 99),
        Err(ErrorCode::MarketAlreadyExists)
    );
    assert_eq!(led.balance_of(Principal::User(1), 10), 400);
    assert_eq!(reg.get_market(1, 10, 20), Some(Market { active: false, price: 5 }));
    // A different triple (other payment asset) succeeds independently.
    let acc2 = InitMarket { creator: 1, item: 10, token: 21 };
    assert_eq!(reg.init_market(&mut led, acc2, 3, 50, 2), Ok(()));
    assert_eq!(reg.get_market(1, 10, 21), Some(Market { active: false, price: 2 }));
    assert_eq!(led.balance_of(derive_vault_authority(1, 10, 21, 3), 10), 50);
}

#[test]
fn create_without_funds_fails_without_effect() {
    let (mut reg, mut led) = setup();
    let acc = InitMarket { creator: 1, item: 10, token: 20 };
    assert_eq!(
        reg.init_market(&mut led, acc, 7, 501, 5),
        Err(ErrorCode::TransferFailed)
    );
    assert_eq!(led.balance_of(Principal::User(1), 10), 500);
    assert_eq!(reg.get_market(1, 10, 20), None);
}

#[test]
fn edit_price_only_keeps_active() {
    let (mut reg, mut led) = setup();
    let acc = InitMarket { creator: 1, item: 10, token: 20 };
    reg.init_market(&mut led, acc, 7, 100, 5).unwrap();
    let eacc = EditMarket { creator: 1, item: 10, token: 20 };
    assert_eq!(reg.edit_market(eacc, 7, Some(true), None), Ok(()));
    assert_eq!(reg.get_market(1, 10, 20), Some(Market { active: true, price: 5 }));
    assert_eq!(reg.edit_market(eacc, 7, None, Some(9)), Ok(()));
    assert_eq!(reg.get_market(1, 10, 20), Some(Market { active: true, price: 9 }));
    assert_eq!(reg.edit_market(eacc, 7, Some(false), None), Ok(()));
    assert_eq!(reg.get_market(1, 10, 20), Some(Market { active: false, price: 9 }));
}

#[test]
fn edit_with_nothing_set_is_a_successful_no_op() {
    let (mut reg, mut led) = setup();
    let acc = InitMarket { creator: 1, item: 10, token: 20 };
    reg.init_market(&mut led, acc, 7, 100, 5).unwrap();
    let eacc = EditMarket { creator: 1, item: 10, token: 20 };
    assert_eq!(reg.edit_market(eacc, 7, None, None), Ok(()));
    assert_eq!(reg.get_market(1, 10, 20), Some(Market { active: false, price: 5 }));
}

#[test]
fn edit_unknown_triple_fails() {
    let (mut reg, _led) = setup();
    let eacc = EditMarket { creator: 1, item: 10, token: 20 };
    assert_eq!(
        reg.edit_market(eacc, 7, Some(true), None),
        Err(ErrorCode::MarketNotFound)
    );
}

/// Seller deposits 100 items at price 5, activates, and a buyer holding
/// 1000 payment units buys 10: the buyer pays 5 * 10 = 50 and ends with 950
/// payment units and 10 items, the seller gains the same 50, the vault keeps
/// 90 items.
#[test]
fn full_purchase_scenario() {
    let (mut reg, mut led) = setup();
    let acc = InitMarket { creator: 1, item: 10, token: 20 };
    reg.init_market(&mut led, acc, 7, 100, 5).unwrap();
    let eacc = EditMarket { creator: 1, item: 10, token: 20 };
    reg.edit_market(eacc, 7, Some(true), None).unwrap();
    let bacc = BuyItem { buyer: 2, creator: 1, item: 10, token: 20 };
    assert_eq!(reg.buy_item(&mut led, bacc, 7, 10), Ok(()));
    assert_eq!(led.balance_of(Principal::User(2), 20), 950);
    assert_eq!(led.balance_of(Principal::User(2), 10), 10);
    assert_eq!(led.balance_of(Principal::User(1), 20), 50);
    assert_eq!(led.balance_of(derive_vault_authority(1, 10, 20, 7), 10), 90);
    // The record itself is untouched by a purchase.
    assert_eq!(reg.get_market(1, 10, 20), Some(Market { active: true, price: 5 }));
}

#[test]
fn purchase_conserves_summed_balances() {
    let (mut reg, mut led) = setup();
    let acc = InitMarket { creator: 1, item: 10, token: 20 };
    reg.init_market(&mut led, acc, 7, 100, 5).unwrap();
    let eacc = EditMarket { creator: 1, item: 10, token: 20 };
    reg.edit_market(eacc, 7, Some(true), None).unwrap();
    let vault = derive_vault_authority(1, 10, 20, 7);
    let payment_before =
        led.balance_of(Principal::User(2), 20) + led.balance_of(Principal::User(1), 20);
    let items_before = led.balance_of(vault, 10) + led.balance_of(Principal::User(2), 10);
    let bacc = BuyItem { buyer: 2, creator: 1, item: 10, token: 20 };
    assert_eq!(reg.buy_item(&mut led, bacc, 7, 37), Ok(()));
    let payment_after =
        led.balance_of(Principal::User(2), 20) + led.balance_of(Principal::User(1), 20);
    let items_after = led.balance_of(vault, 10) + led.balance_of(Principal::User(2), 10);
    assert_eq!(payment_before, payment_after);
    assert_eq!(items_before, items_after);
}

#[test]
fn purchase_while_inactive_changes_nothing() {
    let (mut reg, mut led) = setup();
    let acc = InitMarket { creator: 1, item: 10, token: 20 };
    reg.init_market(&mut led, acc, 7, 100, 5).unwrap();
    let bacc = BuyItem { buyer: 2, creator: 1, item: 10, token: 20 };
    assert_eq!(
        reg.buy_item(&mut led, bacc, 7, 10),
        Err(ErrorCode::MarketNotActive)
    );
    assert_eq!(led.balance_of(Principal::User(2), 20), 1000);
    assert_eq!(led.balance_of(Principal::User(2), 10), 0);
    assert_eq!(led.balance_of(Principal::User(1), 20), 0);
    assert_eq!(led.balance_of(derive_vault_authority(1, 10, 20, 7), 10), 100);
}

#[test]
fn purchase_beyond_vault_inventory_changes_nothing() {
    let (mut reg, mut led) = setup();
    let acc = InitMarket { creator: 1, item: 10, token: 20 };
    reg.init_market(&mut led, acc, 7, 100, 5).unwrap();
    let eacc = EditMarket { creator: 1, item: 10, token: 20 };
    reg.edit_market(eacc, 7, Some(true), None).unwrap();
    let bacc = BuyItem { buyer: 2, creator: 1, item: 10, token: 20 };
    assert_eq!(
        reg.buy_item(&mut led, bacc, 7, 101),
        Err(ErrorCode::MarketDepleted)
    );
    assert_eq!(led.balance_of(Principal::User(2), 20), 1000);
    assert_eq!(led.balance_of(Principal::User(2), 10), 0);
    assert_eq!(led.balance_of(derive_vault_authority(1, 10, 20, 7), 10), 100);
}

#[test]
fn purchase_from_unknown_triple_fails() {
    let (reg, mut led) = setup();
    let bacc = BuyItem { buyer: 2, creator: 1, item: 10, token: 20 };
    assert_eq!(
        reg.buy_item(&mut led, bacc, 7, 1),
        Err(ErrorCode::MarketNotFound)
    );
}

#[test]
fn purchase_with_wrong_byte_is_unauthorized() {
    let (mut reg, mut led) = setup();
    let acc = InitMarket { creator: 1, item: 10, token: 20 };
    reg.init_market(&mut led, acc, 7, 100, 5).unwrap();
    let eacc = EditMarket { creator: 1, item: 10, token: 20 };
    reg.edit_market(eacc, 7, Some(true), None).unwrap();
    let bacc = BuyItem { buyer: 2, creator: 1, item: 10, token: 20 };
    assert_eq!(
        reg.buy_item(&mut led, bacc, 8, 10),
        Err(ErrorCode::Unauthorized)
    );
    assert_eq!(led.balance_of(Principal::User(2), 20), 1000);
    assert_eq!(led.balance_of(derive_vault_authority(1, 10, 20, 7), 10), 100);
}

#[test]
fn purchase_without_payment_funds_fails() {
    let (mut reg, mut led) = setup();
    let acc = InitMarket { creator: 1, item: 10, token: 20 };
    reg.init_market(&mut led, acc, 7, 100, 5).unwrap();
    let eacc = EditMarket { creator: 1, item: 10, token: 20 };
    reg.edit_market(eacc, 7, None, Some(200)).unwrap();
    reg.edit_market(eacc, 7, Some(true), None).unwrap();
    // 6 items at price 200 cost 1200; the buyer holds 1000.
    let bacc = BuyItem { buyer: 2, creator: 1, item: 10, token: 20 };
    assert_eq!(
        reg.buy_item(&mut led, bacc, 7, 6),
        Err(ErrorCode::TransferFailed)
    );
    assert_eq!(led.balance_of(Principal::User(2), 20), 1000);
    assert_eq!(led.balance_of(derive_vault_authority(1, 10, 20, 7), 10), 100);
}

#[test]
fn unrepresentable_total_price_is_refused() {
    let (mut reg, mut led) = setup();
    let acc = InitMarket { creator: 1, item: 10, token: 20 };
    reg.init_market(&mut led, acc, 7, 100, u64::MAX).unwrap();
    let eacc = EditMarket { creator: 1, item: 10, token: 20 };
    reg.edit_market(eacc, 7, Some(true), None).unwrap();
    let bacc = BuyItem { buyer: 2, creator: 1, item: 10, token: 20 };
    assert_eq!(
        reg.buy_item(&mut led, bacc, 7, 2),
        Err(ErrorCode::PriceOverflow)
    );
    assert_eq!(led.balance_of(Principal::User(2), 20), 1000);
}

#[test]
fn derived_authorities_separate_markets_and_bytes() {
    let a = derive_vault_authority(1, 10, 20, 7);
    assert_eq!(a, Principal::Vault(key(1, 10, 20), 7));
    assert_ne!(a, derive_vault_authority(1, 10, 20, 8));
    assert_ne!(a, derive_vault_authority(1, 10, 21, 7));
    assert_ne!(a, derive_vault_authority(2, 10, 20, 7));
    assert_ne!(a, Principal::User(1));
}

#[test]
fn transfer_requires_owner_authorization() {
    let mut led = Ledger::new();
    led.credit(Principal::User(1), 10, 100).unwrap();
    assert_eq!(
        led.transfer(Principal::User(1), Principal::User(2), Principal::User(2), 10, 5),
        Err(TransferError::Unauthorized)
    );
    assert_eq!(led.balance_of(Principal::User(1), 10), 100);
    assert_eq!(
        led.transfer(Principal::User(1), Principal::User(2), Principal::User(1), 10, 5),
        Ok(())
    );
    assert_eq!(led.balance_of(Principal::User(1), 10), 95);
    assert_eq!(led.balance_of(Principal::User(2), 10), 5);
}

#[test]
fn transfer_needs_funds_and_respects_limits() {
    let mut led = Ledger::new();
    led.credit(Principal::User(1), 10, 100).unwrap();
    assert_eq!(
        led.transfer(Principal::User(1), Principal::User(2), Principal::User(1), 10, 101),
        Err(TransferError::InsufficientFunds)
    );
    led.credit(Principal::User(2), 10, u64::MAX - 3).unwrap();
    assert_eq!(
        led.transfer(Principal::User(1), Principal::User(2), Principal::User(1), 10, 4),
        Err(TransferError::BalanceOverflow)
    );
    assert_eq!(led.balance_of(Principal::User(1), 10), 100);
    assert_eq!(led.balance_of(Principal::User(2), 10), u64::MAX - 3);
    assert_eq!(
        led.transfer(Principal::User(1), Principal::User(2), Principal::User(1), 10, 3),
        Ok(())
    );
    assert_eq!(led.balance_of(Principal::User(2), 10), u64::MAX);
}

#[test]
fn self_transfer_still_needs_funds_and_changes_nothing() {
    let mut led = Ledger::new();
    led.credit(Principal::User(1), 10, 7).unwrap();
    assert_eq!(
        led.transfer(Principal::User(1), Principal::User(1), Principal::User(1), 10, 8),
        Err(TransferError::InsufficientFunds)
    );
    assert_eq!(
        led.transfer(Principal::User(1), Principal::User(1), Principal::User(1), 10, 7),
        Ok(())
    );
    assert_eq!(led.balance_of(Principal::User(1), 10), 7);
}

#[test]
fn credit_refuses_overflow() {
    let mut led = Ledger::new();
    led.credit(Principal::User(1), 10, u64::MAX).unwrap();
    assert_eq!(
        led.credit(Principal::User(1), 10, 1),
        Err(TransferError::BalanceOverflow)
    );
    assert_eq!(led.balance_of(Principal::User(1), 10), u64::MAX);
}

#[test]
fn default_market_is_blank() {
    let m = Market::default();
    assert_eq!(m, Market { active: false, price: 0 });
}
