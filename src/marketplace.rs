//! The contract: listing items, reading the catalog, and buying.
use vstd::prelude::*;
use near_sdk::AccountId;
use crate::host::{attached_deposit, predecessor_account_id, transfer};
use crate::price::{amount_of, parse_amount};
use crate::product::{fresh_record, record_with_sale, Payload, Product, ProductRecord};

verus! {

/// Why a purchase did not happen. Each leaves the catalog as it was and moves
/// no funds.
#[derive(Debug, Clone, Copy, PartialEq, Eq, Structural)]
pub enum MarketError {
    /// No item has the id.
    NotFound,
    /// The item's price does not read as an amount.
    MalformedPrice,
    /// The attached deposit is not exactly the price.
    PaymentMismatch,
    /// The item's sales counter cannot count another sale.
    SoldCounterFull,
}

/// The transfer that a purchase owes: the price, to the item's owner.
pub struct Payout {
    pub receiver: AccountId,
    pub amount: u128,
}

/// The catalog: records by id.
pub type Catalog = Map<Seq<char>, ProductRecord>;

/// The catalog after `p` is listed by `owner`: the record under its id is
/// replaced whole.
pub open spec fn listing(c: Catalog, p: Payload, owner: AccountId) -> Catalog {
    c.insert(p.id@, fresh_record(p, owner))
}

/// What buying the item whose stored record is `stored` (`None`: no such
/// item) with `deposit` attached gives.
pub open spec fn item_purchase_result(stored: Option<ProductRecord>, deposit: u128) -> Result<Payout, MarketError> {
    match stored {
        None => Err(MarketError::NotFound),
        Some(rec) => match amount_of(rec.5@) {
            None => Err(MarketError::MalformedPrice),
            Some(price) => if price != deposit {
                Err(MarketError::PaymentMismatch)
            } else if rec.7 == u32::MAX {
                Err(MarketError::SoldCounterFull)
            } else {
                Ok(Payout { receiver: rec.6, amount: price })
            },
        },
    }
}

/// The record that `c` holds under `id`, if any.
pub open spec fn record_at(c: Catalog, id: Seq<char>) -> Option<ProductRecord> {
    if c.contains_key(id) {
        Some(c[id])
    } else {
        None
    }
}

/// What buying `id` with `deposit` attached gives.
pub open spec fn purchase_result(c: Catalog, id: Seq<char>, deposit: u128) -> Result<Payout, MarketError> {
    item_purchase_result(record_at(c, id), deposit)
}

/// The catalog after buying `id` with `deposit` attached: one more sale of
/// the item where the purchase succeeds, else unchanged.
pub open spec fn catalog_after_purchase(c: Catalog, id: Seq<char>, deposit: u128) -> Catalog {
    if purchase_result(c, id, deposit) is Ok {
        c.insert(id, record_with_sale(c[id]))
    } else {
        c
    }
}

/// No two records share an id.
pub open spec fn ids_distinct(s: Seq<ProductRecord>) -> bool {
    forall|i: int, j: int| 0 <= i < s.len() && 0 <= j < s.len() && i != j ==> (#[trigger] s[i]).0@ != (#[trigger] s[j]).0@
}

pub open spec fn has_id(s: Seq<ProductRecord>, k: Seq<char>) -> bool {
    exists|i: int| 0 <= i < s.len() && (#[trigger] s[i]).0@ == k
}

/// The catalog that the records `s` make: each record under its own id.
pub open spec fn catalog_of(s: Seq<ProductRecord>) -> Catalog {
    Map::new(
        |k: Seq<char>| has_id(s, k),
        |k: Seq<char>| s[choose|i: int| 0 <= i < s.len() && (#[trigger] s[i]).0@ == k],
    )
}

/// `items` are the records of `c`, one for each id that `c` holds.
pub open spec fn lists_catalog(c: Catalog, items: Seq<Product>) -> bool {
    &&& forall|i: int, j: int| 0 <= i < j < items.len() ==> (#[trigger] items[i]).id@ != (#[trigger] items[j]).id@
    &&& forall|i: int| 0 <= i < items.len() ==> {
        &&& c.contains_key((#[trigger] items[i]).id@)
        &&& c[items[i].id@] == items[i].record()
    }
    &&& forall|k: Seq<char>| #[trigger] c.contains_key(k) ==> exists|i: int| 0 <= i < items.len() && (#[trigger] items[i]).id@ == k
}

proof fn lemma_lookup(s: Seq<ProductRecord>, i: int)
    requires
        ids_distinct(s),
        0 <= i < s.len(),
    ensures
        catalog_of(s).contains_key(s[i].0@),
        catalog_of(s)[s[i].0@] == s[i],
{
    let k = s[i].0@;
    assert(has_id(s, k));
    let j = choose|j: int| 0 <= j < s.len() && (#[trigger] s[j]).0@ == k;
    assert(j == i);
}

proof fn lemma_replace(s: Seq<ProductRecord>, i: int, r: ProductRecord)
    requires
        ids_distinct(s),
        0 <= i < s.len(),
        r.0@ == s[i].0@,
    ensures
        ids_distinct(s.update(i, r)),
        catalog_of(s.update(i, r)) == catalog_of(s).insert(r.0@, r),
{
    let t = s.update(i, r);
    assert(ids_distinct(t)) by {
        assert forall|a: int, b: int| 0 <= a < t.len() && 0 <= b < t.len() && a != b implies (#[trigger] t[a]).0@ != (#[trigger] t[b]).0@ by {
            assert(s[a].0@ != s[b].0@);
        }
    }
    assert forall|k: Seq<char>| has_id(t, k) <==> #[trigger] catalog_of(s).insert(r.0@, r).contains_key(k) by {
        if has_id(t, k) {
            let a = choose|a: int| 0 <= a < t.len() && (#[trigger] t[a]).0@ == k;
            if a != i {
                assert(has_id(s, k));
            }
        }
        if has_id(s, k) {
            let a = choose|a: int| 0 <= a < s.len() && (#[trigger] s[a]).0@ == k;
            assert(t[a].0@ == k);
        }
        if k == r.0@ {
            assert(t[i].0@ == k);
        }
    }
    assert forall|k: Seq<char>| #[trigger] catalog_of(t).contains_key(k) implies catalog_of(t)[k] == catalog_of(s).insert(r.0@, r)[k] by {
        let a = choose|a: int| 0 <= a < t.len() && (#[trigger] t[a]).0@ == k;
        lemma_lookup(t, a);
        if a != i {
            lemma_lookup(s, a);
        }
    }
    assert(catalog_of(t) =~= catalog_of(s).insert(r.0@, r));
}

proof fn lemma_append(s: Seq<ProductRecord>, r: ProductRecord)
    requires
        ids_distinct(s),
        !has_id(s, r.0@),
    ensures
        ids_distinct(s.push(r)),
        catalog_of(s.push(r)) == catalog_of(s).insert(r.0@, r),
{
    let t = s.push(r);
    assert(ids_distinct(t)) by {
        assert forall|a: int, b: int| 0 <= a < t.len() && 0 <= b < t.len() && a != b implies (#[trigger] t[a]).0@ != (#[trigger] t[b]).0@ by {
            if a < s.len() && b < s.len() {
                assert(s[a].0@ != s[b].0@);
            } else if a < s.len() {
                assert(s[a] == t[a]);
            } else {
                assert(s[b] == t[b]);
            }
        }
    }
    assert forall|k: Seq<char>| has_id(t, k) <==> #[trigger] catalog_of(s).insert(r.0@, r).contains_key(k) by {
        if has_id(t, k) {
            let a = choose|a: int| 0 <= a < t.len() && (#[trigger] t[a]).0@ == k;
            if a < s.len() {
                assert(s[a] == t[a]);
                assert(has_id(s, k));
            }
        }
        if has_id(s, k) {
            let a = choose|a: int| 0 <= a < s.len() && (#[trigger] s[a]).0@ == k;
            assert(t[a].0@ == k);
        }
        if k == r.0@ {
            assert(t[s.len() as int].0@ == k);
        }
    }
    assert forall|k: Seq<char>| #[trigger] catalog_of(t).contains_key(k) implies catalog_of(t)[k] == catalog_of(s).insert(r.0@, r)[k] by {
        let a = choose|a: int| 0 <= a < t.len() && (#[trigger] t[a]).0@ == k;
        lemma_lookup(t, a);
        if a < s.len() {
            assert(s[a] == t[a]);
            lemma_lookup(s, a);
        }
    }
    assert(catalog_of(t) =~= catalog_of(s).insert(r.0@, r));
}

/// The record of a stored product, if any.
pub open spec fn stored_record(stored: Option<Product>) -> Option<ProductRecord> {
    match stored {
        Some(p) => Some(p.record()),
        None => None,
    }
}

/// Buys the item whose stored record is `stored` (`None`: no such item) with
/// `deposit` attached: on success, the item with one more sale, to store back
/// under its id, and the payout that its owner is owed.
pub fn purchase_item(stored: Option<Product>, deposit: u128) -> (r: Result<(Product, Payout), MarketError>)
    ensures
        match r {
            Ok((p, payout)) => {
                &&& item_purchase_result(stored_record(stored), deposit) == Ok::<Payout, MarketError>(payout)
                &&& p.record() == record_with_sale(stored->Some_0.record())
            },
            Err(e) => item_purchase_result(stored_record(stored), deposit) == Err::<Payout, MarketError>(e),
        },
{
    match stored {
        None => Err(MarketError::NotFound),
        Some(mut product) => {
            let price = match parse_amount(product.price.as_str()) {
                None => {
                    return Err(MarketError::MalformedPrice);
                },
                Some(p) => p,
            };
            if deposit != price {
                return Err(MarketError::PaymentMismatch);
            }
            if product.sold == u32::MAX {
                return Err(MarketError::SoldCounterFull);
            }
            let receiver = product.owner.clone();
            product.increment_sold_amount();
            Ok((product, Payout { receiver, amount: price }))
        },
    }
}

/// A catalog of items, each under its own id, kept in listing order.
pub struct Marketplace {
    listed_products: Vec<Product>,
}

impl Marketplace {
    pub closed spec fn records(&self) -> Seq<ProductRecord> {
        self.listed_products@.map_values(|p: Product| p.record())
    }

    /// The records of the catalog, by id.
    pub closed spec fn catalog(&self) -> Catalog {
        catalog_of(self.records())
    }

    /// Every item has an id of its own.
    pub closed spec fn wf(&self) -> bool {
        ids_distinct(self.records())
    }

    /// An empty catalog.
    pub fn init() -> (r: Self)
        ensures
            r.wf(),
            r.catalog() == Map::<Seq<char>, ProductRecord>::empty(),
    {
        let r = Marketplace { listed_products: Vec::new() };
        assert(r.catalog() =~= Map::<Seq<char>, ProductRecord>::empty());
        r
    }

    /// The position of the item with id `id`, if any.
    fn find(&self, id: &String) -> (r: Option<usize>)
        ensures
            match r {
                Some(i) => i < self.listed_products@.len() && self.listed_products@[i as int].id@ == id@,
                None => !has_id(self.records(), id@),
            },
    {
        let n = self.listed_products.len();
        let mut i: usize = 0;
        while i < n
            invariant
                n == self.listed_products@.len(),
                i <= n,
                forall|j: int| 0 <= j < i ==> (#[trigger] self.listed_products@[j]).id@ != id@,
            decreases n - i,
        {
            let same = self.listed_products[i].id == *id;
            if same {
                return Some(i);
            }
            i = i + 1;
        }
        assert forall|j: int| 0 <= j < self.records().len() implies (#[trigger] self.records()[j]).0@ != id@ by {
            assert(self.records()[j] == self.listed_products@[j].record());
        }
        None
    }

    /// Stores `product` under its id, replacing the item that had it.
    fn put(&mut self, product: Product)
        requires
            old(self).wf(),
        ensures
            final(self).wf(),
            final(self).catalog() == old(self).catalog().insert(product.id@, product.record()),
    {
        let ghost s = self.records();
        let ghost r = product.record();
        match self.find(&product.id) {
            Some(i) => {
                proof {
                    lemma_replace(s, i as int, r);
                }
                self.listed_products.set(i, product);
                assert(self.records() =~= s.update(i as int, r));
            },
            None => {
                proof {
                    lemma_append(s, r);
                }
                self.listed_products.push(product);
                assert(self.records() =~= s.push(r));
            },
        }
    }

    /// Lists `product` as `owner`, replacing whatever had its id.
    pub fn set_product_as(&mut self, product: Payload, owner: AccountId)
        requires
            old(self).wf(),
        ensures
            final(self).wf(),
            final(self).catalog() == listing(old(self).catalog(), product, owner),
    {
        let product = Product::listed_by(product, owner);
        self.put(product);
    }

    /// Lists `product` as the account that invoked the call, replacing whatever
    /// had its id.
    pub fn setProduct(&mut self, product: Payload)
        requires
            old(self).wf(),
        ensures
            final(self).wf(),
            exists|owner: AccountId| final(self).catalog() == listing(old(self).catalog(), product, owner),
    {
        let owner = predecessor_account_id();
        self.set_product_as(product, owner);
    }

    /// The item with id `id`, if any.
    pub fn getProduct(&self, id: &String) -> (r: Option<Product>)
        requires
            self.wf(),
        ensures
            r is Some <==> self.catalog().contains_key(id@),
            r is Some ==> r->Some_0.record() == self.catalog()[id@],
    {
        match self.find(id) {
            Some(i) => {
                proof {
                    lemma_lookup(self.records(), i as int);
                }
                Some(self.listed_products[i].cloned())
            },
            None => None,
        }
    }

    /// Every item of the catalog, once each, in listing order.
    pub fn getProducts(&self) -> (r: Vec<Product>)
        requires
            self.wf(),
        ensures
            r@.len() == self.catalog().dom().len(),
            lists_catalog(self.catalog(), r@),
    {
        let n = self.listed_products.len();
        let mut products: Vec<Product> = Vec::new();
        let mut i: usize = 0;
        while i < n
            invariant
                n == self.listed_products@.len(),
                i <= n,
                products@.len() == i,
                forall|j: int| 0 <= j < i ==> (#[trigger] products@[j]).record() == self.listed_products@[j].record(),
            decreases n - i,
        {
            products.push(self.listed_products[i].cloned());
            i = i + 1;
        }
        let ghost s = self.records();
        let ghost c = self.catalog();
        assert forall|j: int| 0 <= j < n implies {
            &&& c.contains_key((#[trigger] products@[j]).id@)
            &&& c[products@[j].id@] == products@[j].record()
        } by {
            assert(s[j] == self.listed_products@[j].record());
            lemma_lookup(s, j);
        }
        assert forall|a: int, b: int| 0 <= a < b < n implies (#[trigger] products@[a]).id@ != (#[trigger] products@[b]).id@ by {
            assert(s[a] == self.listed_products@[a].record());
            assert(s[b] == self.listed_products@[b].record());
        }
        assert forall|k: Seq<char>| #[trigger] c.contains_key(k) implies exists|j: int| 0 <= j < n && (#[trigger] products@[j]).id@ == k by {
            let j = choose|j: int| 0 <= j < s.len() && (#[trigger] s[j]).0@ == k;
            assert(s[j] == self.listed_products@[j].record());
            assert(products@[j].id@ == k);
        }
        let ghost ids = s.map_values(|x: ProductRecord| x.0@);
        assert(ids.no_duplicates()) by {
            assert forall|a: int, b: int| 0 <= a < ids.len() && 0 <= b < ids.len() && a != b implies ids[a] != ids[b] by {
                assert(s[a].0@ != s[b].0@);
            }
        }
        assert(c.dom() =~= ids.to_set()) by {
            assert forall|k: Seq<char>| c.dom().contains(k) implies ids.to_set().contains(k) by {
                let j = choose|j: int| 0 <= j < s.len() && (#[trigger] s[j]).0@ == k;
                assert(ids[j] == k);
            }
            assert forall|k: Seq<char>| ids.to_set().contains(k) implies c.dom().contains(k) by {
                let j = choose|j: int| 0 <= j < ids.len() && ids[j] == k;
                assert(s[j].0@ == k);
            }
        }
        proof {
            ids.unique_seq_to_set();
        }
        products
    }

    /// Buys the item `productId` with `deposit` attached. Where the item
    /// exists, its price reads as an amount equal to `deposit`, and its sales
    /// counter has room, the sale is recorded and the payout to the owner is
    /// returned; otherwise the catalog is left as it was.
    pub fn purchase(&mut self, productId: &String, deposit: u128) -> (r: Result<Payout, MarketError>)
        requires
            old(self).wf(),
        ensures
            final(self).wf(),
            r == purchase_result(old(self).catalog(), productId@, deposit),
            final(self).catalog() == catalog_after_purchase(old(self).catalog(), productId@, deposit),
    {
        let ghost c = self.catalog();
        match self.find(productId) {
            None => {
                assert(!c.contains_key(productId@));
                Err(MarketError::NotFound)
            },
            Some(i) => {
                proof {
                    lemma_lookup(self.records(), i as int);
                }
                let stored = self.listed_products[i].cloned();
                match purchase_item(Some(stored), deposit) {
                    Ok((product, payout)) => {
                        self.put(product);
                        Ok(payout)
                    },
                    Err(e) => Err(e),
                }
            },
        }
    }

    /// Buys the item `productId` with the deposit attached to the call, and
    /// on success pays the price to the item's owner. The sale is recorded
    /// before the transfer is scheduled; a failed purchase moves no funds and
    /// leaves the catalog as it was.
    pub fn buyProduct(&mut self, productId: &String) -> (r: Result<(), MarketError>)
        requires
            old(self).wf(),
        ensures
            final(self).wf(),
            exists|deposit: u128| {
                &&& final(self).catalog() == catalog_after_purchase(old(self).catalog(), productId@, deposit)
                &&& match r {
                    Ok(_) => purchase_result(old(self).catalog(), productId@, deposit) is Ok,
                    Err(e) => purchase_result(old(self).catalog(), productId@, deposit) == Err::<Payout, MarketError>(e),
                }
            },
            !old(self).catalog().contains_key(productId@) ==> {
                &&& r == Err::<(), MarketError>(MarketError::NotFound)
                &&& final(self).catalog() == old(self).catalog()
            },
    {
        let deposit = attached_deposit();
        match self.purchase(productId, deposit) {
            Ok(payout) => {
                transfer(payout.receiver, payout.amount);
                Ok(())
            },
            Err(e) => Err(e),
        }
    }
}

} // verus!
