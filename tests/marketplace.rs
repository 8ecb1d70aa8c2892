use near_marketplace::marketplace::{purchase_item, MarketError, Marketplace};
use near_marketplace::price::parse_amount;
use near_marketplace::product::{Payload, Product};
use near_sdk::test_utils::{get_created_receipts, VMContextBuilder};
use near_sdk::{AccountId, NearToken};

fn account(name: &str) -> AccountId {
    name.parse().unwrap()
}

#[allow(deprecated)]
fn call_as(caller: &str, deposit: u128) {
    let context = VMContextBuilder::new()
        .signer_account_id(account("relayer.near"))
        .predecessor_account_id(account(caller))
        .attached_deposit(NearToken::from_yoctonear(deposit))
        .build();
    near_sdk::test_utils::testing_env_with_promise_results(context, near_sdk::PromiseResult::Failed);
}

fn payload(id: &str, name: &str, price: &str) -> Payload {
    Payload {
        id: id.to_string(),
        name: name.to_string(),
        description: format!("{} description", name),
        image: format!("https://img.example/{}.png", id),
        location: "Lagos".to_string(),
        price: price.to_string(),
    }
}

fn transfers() -> Vec<(AccountId, u128)> {
    let mut out = Vec::new();
    for receipt in get_created_receipts() {
        for action in receipt.actions {
            if let near_sdk::mock::MockAction::Transfer { deposit, .. } = action {
                out.push((receipt.receiver_id.clone(), deposit.as_yoctonear()));
            }
        }
    }
    out
}

#[test]
fn scenario_list_buy_then_underpay() {
    call_as("alice.near", 0);
    let mut market = Marketplace::init();
    market.setProduct(payload("a", "Lamp", "100"));
    let p = market.getProduct(&"a".to_string()).unwrap();
    assert_eq!(p.price, "100");
    assert_eq!(p.owner, account("alice.near"));
    assert_eq!(p.sold, 0);

    call_as("bob.near", 100);
    assert_eq!(market.buyProduct(&"a".to_string()), Ok(()));
    let p = market.getProduct(&"a".to_string()).unwrap();
    assert_eq!(p.sold, 1);
    assert_eq!(p.owner, account("alice.near"));
    assert_eq!(p.price, "100");
    assert_eq!(transfers(), vec![(account("alice.near"), 100)]);

    call_as("bob.near", 50);
    assert_eq!(market.buyProduct(&"a".to_string()), Err(MarketError::PaymentMismatch));
    assert_eq!(market.getProduct(&"a".to_string()).unwrap().sold, 1);
    assert!(transfers().is_empty());
}

#[test]
fn listing_copies_fields_and_stamps_caller() {
    call_as("carol.near", 0);
    let mut market = Marketplace::init();
    market.setProduct(payload("chair-1", "Chair", "250"));
    let p = market.getProduct(&"chair-1".to_string()).unwrap();
    assert_eq!(p.id, "chair-1");
    assert_eq!(p.name, "Chair");
    assert_eq!(p.description, "Chair description");
    assert_eq!(p.image, "https://img.example/chair-1.png");
    assert_eq!(p.location, "Lagos");
    assert_eq!(p.price, "250");
    assert_eq!(p.owner, account("carol.near"));
    assert_eq!(p.sold, 0);
}

#[test]
fn from_payload_owner_is_caller() {
    call_as("dave.near", 0);
    let p = Product::from_payload(payload("x", "X", "1"));
    assert_eq!(p.owner, account("dave.near"));
    assert_eq!(p.sold, 0);
    assert_eq!(p.id, "x");
}

#[test]
fn listed_by_sets_given_owner() {
    let p = Product::listed_by(payload("y", "Y", "9"), account("erin.near"));
    assert_eq!(p.owner, account("erin.near"));
    assert_eq!(p.sold, 0);
    assert_eq!(p.price, "9");
}

#[test]
fn relisting_replaces_record_and_resets_sales() {
    let mut market = Marketplace::init();
    market.set_product_as(payload("a", "Old", "5"), account("alice.near"));
    assert!(market.purchase(&"a".to_string(), 5).is_ok());
    assert!(market.purchase(&"a".to_string(), 5).is_ok());
    assert_eq!(market.getProduct(&"a".to_string()).unwrap().sold, 2);
    market.set_product_as(payload("a", "New", "7"), account("bob.near"));
    let p = market.getProduct(&"a".to_string()).unwrap();
    assert_eq!(p.name, "New");
    assert_eq!(p.price, "7");
    assert_eq!(p.owner, account("bob.near"));
    assert_eq!(p.sold, 0);
    assert_eq!(market.getProducts().len(), 1);
}

#[test]
fn purchase_requires_exact_deposit() {
    let mut market = Marketplace::init();
    market.set_product_as(payload("a", "Lamp", "100"), account("alice.near"));
    for deposit in [99u128, 101, 0, 200] {
        assert_eq!(market.purchase(&"a".to_string(), deposit).err(), Some(MarketError::PaymentMismatch));
        let p = market.getProduct(&"a".to_string()).unwrap();
        assert_eq!(p.sold, 0);
        assert_eq!(p.price, "100");
        assert_eq!(p.owner, account("alice.near"));
    }
    let payout = market.purchase(&"a".to_string(), 100).unwrap();
    assert_eq!(payout.receiver, account("alice.near"));
    assert_eq!(payout.amount, 100);
    assert_eq!(market.getProduct(&"a".to_string()).unwrap().sold, 1);
}

#[test]
fn sales_count_successful_purchases() {
    let mut market = Marketplace::init();
    market.set_product_as(payload("a", "Lamp", "3"), account("alice.near"));
    for n in 1..=5u32 {
        assert!(market.purchase(&"a".to_string(), 3).is_ok());
        assert_eq!(market.getProduct(&"a".to_string()).unwrap().sold, n);
    }
    assert!(market.purchase(&"a".to_string(), 4).is_err());
    assert_eq!(market.getProduct(&"a".to_string()).unwrap().sold, 5);
}

#[test]
fn buying_missing_item_is_not_found_and_pays_nothing() {
    call_as("bob.near", 10);
    let mut market = Marketplace::init();
    market.set_product_as(payload("a", "Lamp", "10"), account("alice.near"));
    assert_eq!(market.buyProduct(&"b".to_string()), Err(MarketError::NotFound));
    assert!(transfers().is_empty());
    assert!(market.getProduct(&"b".to_string()).is_none());
    assert_eq!(market.getProduct(&"a".to_string()).unwrap().sold, 0);
}

#[test]
fn purchase_of_missing_item_on_empty_catalog() {
    let mut market = Marketplace::init();
    assert_eq!(market.purchase(&"nothing".to_string(), 0).err(), Some(MarketError::NotFound));
    assert!(market.getProducts().is_empty());
}

#[test]
fn malformed_price_blocks_purchase() {
    let mut market = Marketplace::init();
    market.set_product_as(payload("a", "Lamp", "ten"), account("alice.near"));
    market.set_product_as(payload("b", "Desk", "-5"), account("alice.near"));
    market.set_product_as(payload("c", "Rug", ""), account("alice.near"));
    for id in ["a", "b", "c"] {
        assert_eq!(market.purchase(&id.to_string(), 10).err(), Some(MarketError::MalformedPrice));
        assert_eq!(market.getProduct(&id.to_string()).unwrap().sold, 0);
    }
}

#[test]
fn free_item_is_bought_with_zero_deposit() {
    call_as("bob.near", 0);
    let mut market = Marketplace::init();
    market.set_product_as(payload("gift", "Gift", "0"), account("alice.near"));
    assert_eq!(market.buyProduct(&"gift".to_string()), Ok(()));
    assert_eq!(market.getProduct(&"gift".to_string()).unwrap().sold, 1);
}

#[test]
fn get_products_lists_each_item_once() {
    let mut market = Marketplace::init();
    assert!(market.getProducts().is_empty());
    market.set_product_as(payload("a", "Lamp", "1"), account("alice.near"));
    market.set_product_as(payload("b", "Desk", "2"), account("bob.near"));
    market.set_product_as(payload("a", "Lamp II", "3"), account("alice.near"));
    let mut items: Vec<(String, String, String)> = market
        .getProducts()
        .into_iter()
        .map(|p| (p.id, p.name, p.price))
        .collect();
    items.sort();
    assert_eq!(
        items,
        vec![
            ("a".to_string(), "Lamp II".to_string(), "3".to_string()),
            ("b".to_string(), "Desk".to_string(), "2".to_string()),
        ]
    );
}

#[test]
fn increment_sold_amount_adds_one() {
    let mut p = Product::listed_by(payload("a", "Lamp", "1"), account("alice.near"));
    p.increment_sold_amount();
    p.increment_sold_amount();
    assert_eq!(p.sold, 2);
    p.sold = u32::MAX - 1;
    p.increment_sold_amount();
    assert_eq!(p.sold, u32::MAX);
    assert_eq!(p.name, "Lamp");
}

#[test]
fn parse_amount_reads_decimal_text() {
    assert_eq!(parse_amount("100"), Some(100));
    assert_eq!(parse_amount("0"), Some(0));
    assert_eq!(parse_amount("007"), Some(7));
    assert_eq!(parse_amount("+42"), Some(42));
    assert_eq!(parse_amount("340282366920938463463374607431768211455"), Some(u128::MAX));
}

#[test]
fn parse_amount_rejects_non_amounts() {
    assert_eq!(parse_amount(""), None);
    assert_eq!(parse_amount("+"), None);
    assert_eq!(parse_amount("-1"), None);
    assert_eq!(parse_amount(" 1"), None);
    assert_eq!(parse_amount("1 "), None);
    assert_eq!(parse_amount("1.5"), None);
    assert_eq!(parse_amount("++1"), None);
    assert_eq!(parse_amount("340282366920938463463374607431768211456"), None);
    assert_eq!(parse_amount("99999999999999999999999999999999999999999x"), None);
}

#[test]
fn parse_amount_agrees_with_std() {
    for text in ["0", "1", "+9", "123456789", "18446744073709551616", "", "+", "-0", "a1", "1_000"] {
        assert_eq!(parse_amount(text), text.parse::<u128>().ok());
    }
}

#[test]
fn purchase_item_records_sale_and_payout() {
    let stored = Product::listed_by(payload("a", "Lamp", "+12"), account("alice.near"));
    let (product, payout) = purchase_item(Some(stored), 12).ok().unwrap();
    assert_eq!(product.sold, 1);
    assert_eq!(product.id, "a");
    assert_eq!(product.owner, account("alice.near"));
    assert_eq!(payout.receiver, account("alice.near"));
    assert_eq!(payout.amount, 12);
}

#[test]
fn purchase_item_errors() {
    assert_eq!(purchase_item(None, 1).err(), Some(MarketError::NotFound));
    let bad = Product::listed_by(payload("a", "Lamp", "1e3"), account("alice.near"));
    assert_eq!(purchase_item(Some(bad), 1000).err(), Some(MarketError::MalformedPrice));
    let lamp = Product::listed_by(payload("a", "Lamp", "12"), account("alice.near"));
    assert_eq!(purchase_item(Some(lamp), 13).err(), Some(MarketError::PaymentMismatch));
    let mut full = Product::listed_by(payload("a", "Lamp", "12"), account("alice.near"));
    full.sold = u32::MAX;
    assert_eq!(purchase_item(Some(full), 12).err(), Some(MarketError::SoldCounterFull));
}

#[test]
fn fresh_catalog_is_empty() {
    let market = Marketplace::init();
    assert!(market.getProduct(&"a".to_string()).is_none());
    assert!(market.getProducts().is_empty());
}

#[test]
fn two_catalogs_are_independent() {
    let mut first = Marketplace::init();
    let mut second = Marketplace::init();
    first.set_product_as(payload("a", "Lamp", "1"), account("alice.near"));
    second.set_product_as(payload("b", "Desk", "2"), account("bob.near"));
    assert_eq!(first.getProduct(&"a".to_string()).unwrap().name, "Lamp");
    assert!(first.getProduct(&"b".to_string()).is_none());
    assert!(second.getProduct(&"a".to_string()).is_none());
    assert_eq!(second.getProducts().len(), 1);
}
