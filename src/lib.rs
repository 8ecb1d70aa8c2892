//! A catalog of sellable items kept in contract storage, with payment-gated
//! purchases whose every step is stated and proved.

pub mod host;
pub mod laws;
pub mod marketplace;
pub mod price;
pub mod product;
