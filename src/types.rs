use vstd::prelude::*;

verus! {

/// An account or contract address, held as its textual key.
#[derive(Debug, Clone)]
pub struct Address {
    pub key: String,
}

impl View for Address {
    type V = Seq<char>;

    open spec fn view(&self) -> Seq<char> {
        self.key@
    }
}

impl Address {
    pub fn new(key: String) -> (r: Address)
        ensures
            r@ == key@,
    {
        Address { key }
    }

    /// A copy of this address with the same key.
    pub fn duplicate(&self) -> (r: Address)
        ensures
            r@ == self@,
    {
        Address { key: self.key.clone() }
    }
}

impl PartialEq for Address {
    fn eq(&self, other: &Address) -> (r: bool) {
        self.key == other.key
    }
}

impl vstd::std_specs::cmp::PartialEqSpecImpl for Address {
    open spec fn obeys_eq_spec() -> bool {
        true
    }

    open spec fn eq_spec(&self, other: &Address) -> bool {
        self@ == other@
    }
}

impl Eq for Address {
}

/// A registered item.
#[derive(Debug, Clone)]
pub struct Product {
    pub id: u64,
    pub owner: Address,
    pub origin: String,
    pub active: bool,
    pub metadata: String,
    pub created_at: u64,
}

/// A product as plain mathematical values.
pub struct ProductView {
    pub id: u64,
    pub owner: Seq<char>,
    pub origin: Seq<char>,
    pub active: bool,
    pub metadata: Seq<char>,
    pub created_at: u64,
}

impl View for Product {
    type V = ProductView;

    open spec fn view(&self) -> ProductView {
        ProductView {
            id: self.id,
            owner: self.owner@,
            origin: self.origin@,
            active: self.active,
            metadata: self.metadata@,
            created_at: self.created_at,
        }
    }
}

impl Product {
    /// A copy of this product with the same fields.
    pub fn duplicate(&self) -> (r: Product)
        ensures
            r@ == self@,
    {
        Product {
            id: self.id,
            owner: self.owner.duplicate(),
            origin: self.origin.clone(),
            active: self.active,
            metadata: self.metadata.clone(),
            created_at: self.created_at,
        }
    }
}

/// The two global counters.
#[derive(Debug, Clone, Copy, PartialEq, Eq, Structural)]
pub struct ProductStats {
    pub total_products: u64,
    pub active_products: u64,
}

/// Why a mutating operation was refused.
#[derive(Debug, Clone, Copy, PartialEq, Eq, Structural)]
pub enum Error {
    /// The referenced product ID has no record.
    ProductNotFound,
    /// The caller is not the product's current owner.
    Unauthorized,
}

} // verus!
