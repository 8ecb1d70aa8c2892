//! Properties of listing and buying, stated over the catalog model that the
//! contract's methods are specified with.
use vstd::prelude::*;
use near_sdk::AccountId;
use crate::marketplace::{
    catalog_after_purchase, listing, purchase_result, Catalog, MarketError, Payout,
};
use crate::price::amount_of;
use crate::product::{fresh_record, Payload};

verus! {

/// The catalog after `n` purchases of `id`, each with `deposit` attached.
pub open spec fn after_purchases(c: Catalog, id: Seq<char>, deposit: u128, n: nat) -> Catalog
    decreases n,
{
    if n == 0 {
        c
    } else {
        catalog_after_purchase(after_purchases(c, id, deposit, (n - 1) as nat), id, deposit)
    }
}

/// Listing an id a second time leaves exactly the second listing: its fields,
/// its lister as owner, and no sales, as if the first had not happened.
pub proof fn lemma_relisting_replaces(
    c: Catalog,
    first: Payload,
    first_owner: AccountId,
    second: Payload,
    second_owner: AccountId,
)
    requires
        first.id@ == second.id@,
    ensures
        listing(listing(c, first, first_owner), second, second_owner) == listing(c, second, second_owner),
        listing(listing(c, first, first_owner), second, second_owner)[second.id@]
            == fresh_record(second, second_owner),
        listing(listing(c, first, first_owner), second, second_owner)[second.id@].6 == second_owner,
        listing(listing(c, first, first_owner), second, second_owner)[second.id@].7 == 0,
{
    assert(listing(listing(c, first, first_owner), second, second_owner) =~= listing(c, second, second_owner));
}

/// A purchase of a listed item whose price reads as an amount, and whose sales
/// counter has room, succeeds exactly when the deposit equals that amount.
/// Any purchase that fails leaves the catalog exactly as it was.
pub proof fn lemma_purchase_exactness(c: Catalog, id: Seq<char>, deposit: u128)
    requires
        c.contains_key(id),
        amount_of(c[id].5@) is Some,
        c[id].7 < u32::MAX,
    ensures
        purchase_result(c, id, deposit) is Ok <==> amount_of(c[id].5@) == Some(deposit),
        purchase_result(c, id, deposit) is Err ==> catalog_after_purchase(c, id, deposit) == c,
{
}

/// Listing an item sets its sales to zero, whatever was there before; after
/// `n` purchases that each pay the listed price, with no listing between them,
/// the item has `n` sales and is otherwise as listed.
pub proof fn lemma_sales_count_purchases(c: Catalog, p: Payload, owner: AccountId, deposit: u128, n: nat)
    requires
        amount_of(p.price@) == Some(deposit),
        n <= u32::MAX,
    ensures
        listing(c, p, owner)[p.id@].7 == 0,
        after_purchases(listing(c, p, owner), p.id@, deposit, n).contains_key(p.id@),
        after_purchases(listing(c, p, owner), p.id@, deposit, n)[p.id@]
            == (p.id, p.name, p.description, p.image, p.location, p.price, owner, n as u32),
    decreases n,
{
    if n > 0 {
        lemma_sales_count_purchases(c, p, owner, deposit, (n - 1) as nat);
    }
}

/// A listed item is owned by the account that listed it.
pub proof fn lemma_owner_is_lister(c: Catalog, p: Payload, owner: AccountId)
    ensures
        listing(c, p, owner).contains_key(p.id@),
        listing(c, p, owner)[p.id@].6 == owner,
{
}

/// Buying an id that is not listed fails with `NotFound`, owes no payout, and
/// leaves the catalog as it was.
pub proof fn lemma_absent_item_purchase(c: Catalog, id: Seq<char>, deposit: u128)
    requires
        !c.contains_key(id),
    ensures
        purchase_result(c, id, deposit) == Err::<Payout, MarketError>(MarketError::NotFound),
        catalog_after_purchase(c, id, deposit) == c,
{
}

} // verus!
