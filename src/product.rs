//! Items of the catalog: what a seller submits, and the record that is kept.
use vstd::prelude::*;
use near_sdk::AccountId;
use crate::host::predecessor_account_id;

verus! {

/// What a seller submits to list an item.
pub struct Payload {
    pub id: String,
    pub name: String,
    pub description: String,
    pub image: String,
    pub location: String,
    pub price: String,
}

/// An item of the catalog.
pub struct Product {
    pub id: String,
    pub name: String,
    pub description: String,
    pub image: String,
    pub location: String,
    /// A decimal amount, read only when the item is bought.
    pub price: String,
    /// The account that listed the item.
    pub owner: AccountId,
    /// How many times the item was bought since it was listed.
    pub sold: u32,
}

/// The form in which a product is stored:
/// `(id, name, description, image, location, price, owner, sold)`.
pub type ProductRecord = (String, String, String, String, String, String, AccountId, u32);

/// The record that listing `p` as `owner` stores: the submitted fields as they
/// are, the owner, and no sales.
pub open spec fn fresh_record(p: Payload, owner: AccountId) -> ProductRecord {
    (p.id, p.name, p.description, p.image, p.location, p.price, owner, 0u32)
}

/// `r` with one more sale.
pub open spec fn record_with_sale(r: ProductRecord) -> ProductRecord {
    (r.0, r.1, r.2, r.3, r.4, r.5, r.6, (r.7 + 1) as u32)
}

impl Product {
    /// The product in its stored form.
    pub open spec fn record(self) -> ProductRecord {
        (self.id, self.name, self.description, self.image, self.location, self.price, self.owner, self.sold)
    }

    /// The product that listing `payload` as `owner` makes.
    pub fn listed_by(payload: Payload, owner: AccountId) -> (r: Product)
        ensures
            r.record() == fresh_record(payload, owner),
    {
        Product {
            id: payload.id,
            name: payload.name,
            description: payload.description,
            image: payload.image,
            location: payload.location,
            price: payload.price,
            owner,
            sold: 0,
        }
    }

    /// The product that listing `payload` makes, owned by the account that
    /// invoked the current call.
    pub fn from_payload(payload: Payload) -> (r: Product)
        ensures
            r.record() == fresh_record(payload, r.owner),
    {
        let owner = predecessor_account_id();
        Product::listed_by(payload, owner)
    }

    /// Records one more sale.
    pub fn increment_sold_amount(&mut self)
        requires
            old(self).sold < u32::MAX,
        ensures
            final(self).record() == record_with_sale(old(self).record()),
    {
        self.sold = self.sold + 1;
    }

    /// A copy of the product.
    pub fn cloned(&self) -> (r: Product)
        ensures
            r.record() == self.record(),
    {
        Product {
            id: self.id.clone(),
            name: self.name.clone(),
            description: self.description.clone(),
            image: self.image.clone(),
            location: self.location.clone(),
            price: self.price.clone(),
            owner: self.owner.clone(),
            sold: self.sold,
        }
    }

    /// The product in its stored form.
    pub fn into_record(self) -> (r: ProductRecord)
        ensures
            r == self.record(),
    {
        (self.id, self.name, self.description, self.image, self.location, self.price, self.owner, self.sold)
    }

    /// The product that a stored record describes.
    pub fn from_record(r: ProductRecord) -> (p: Product)
        ensures
            p.record() == r,
    {
        let (id, name, description, image, location, price, owner, sold) = r;
        Product { id, name, description, image, location, price, owner, sold }
    }
}

} // verus!
