use vstd::prelude::*;
use crate::auth::AuthStore;
use crate::index::{log_of, KeyedIndex};
use crate::model::{
    all_ids, authorized, empty_registry, granted, has_product, lemma_registered_wf, next_id, page,
    product, registered, registry_wf, revoked, transferred, valid_log, views, window, RegistryView,
};
use crate::types::{Address, Error, Product, ProductStats, ProductView};

verus! {

/// The registry: a product store, a global index, per-owner and per-origin
/// indexes, the delegated authorization store and the two global counters.
pub struct ChainLogisticsContract {
    products: Vec<Product>,
    all_index: Vec<u64>,
    owner_index: KeyedIndex,
    origin_index: KeyedIndex,
    auth: AuthStore,
    total_products: u64,
    active_products: u64,
}

impl View for ChainLogisticsContract {
    type V = RegistryView;

    closed spec fn view(&self) -> RegistryView {
        RegistryView {
            products: views(self.products@),
            owner_index: self.owner_index@,
            origin_index: self.origin_index@,
            delegated: self.auth@,
            active_products: self.active_products as nat,
        }
    }
}

impl ChainLogisticsContract {
    /// The stores agree with each other and with the counters.
    pub closed spec fn wf(&self) -> bool {
        &&& self.owner_index.wf()
        &&& self.origin_index.wf()
        &&& self.products.len() == self.total_products
        &&& self.all_index@ == all_ids(self.products.len() as nat)
        &&& registry_wf(self@)
    }

    /// What a well-formed registry's view satisfies.
    pub proof fn lemma_wf(&self)
        requires
            self.wf(),
        ensures
            registry_wf(self@),
    {
    }

    /// An empty registry.
    pub fn new() -> (r: ChainLogisticsContract)
        ensures
            r.wf(),
            r@ == empty_registry(),
    {
        let r = ChainLogisticsContract {
            products: Vec::new(),
            all_index: Vec::new(),
            owner_index: KeyedIndex::new(),
            origin_index: KeyedIndex::new(),
            auth: AuthStore::new(),
            total_products: 0,
            active_products: 0,
        };
        assert(views(r.products@) =~= Seq::<ProductView>::empty());
        assert(r.all_index@ =~= all_ids(0));
        r
    }

    /// The product with ID `id`, if one was registered.
    pub fn get_product(&self, id: u64) -> (r: Option<Product>)
        requires
            self.wf(),
        ensures
            match r {
                Some(p) => has_product(self@, id) && p@ == product(self@, id),
                None => !has_product(self@, id),
            },
    {
        if id >= 1 && id <= self.total_products {
            Some(self.products[(id - 1) as usize].duplicate())
        } else {
            None
        }
    }

    /// The total and active product counts.
    pub fn get_stats(&self) -> (r: ProductStats)
        requires
            self.wf(),
        ensures
            r.total_products == self@.products.len(),
            r.active_products == self@.active_products,
    {
        ProductStats { total_products: self.total_products, active_products: self.active_products }
    }

    /// Whether `actor` owns product `product_id` or holds a delegated entry for it.
    pub fn is_authorized(&self, product_id: u64, actor: Address) -> (r: bool)
        requires
            self.wf(),
        ensures
            r == authorized(self@, product_id, actor@),
    {
        if product_id >= 1 && product_id <= self.total_products {
            if self.products[(product_id - 1) as usize].owner == actor {
                return true;
            }
        }
        self.auth.contains(product_id, &actor.key)
    }

    /// Registers a product for `owner`, stamped `created_at`, and returns its ID.
    pub fn register_product(
        &mut self,
        owner: Address,
        origin: String,
        metadata: String,
        created_at: u64,
    ) -> (r: Result<u64, Error>)
        requires
            old(self).wf(),
            old(self)@.products.len() < u64::MAX,
        ensures
            final(self).wf(),
            r == Ok::<u64, Error>(next_id(old(self)@) as u64),
            final(self)@ == registered(old(self)@, owner@, origin@, metadata@, created_at),
    {
        let ghost pre = self@;
        let id = self.total_products + 1;
        let owner_key = owner.key.clone();
        let product = Product {
            id,
            owner,
            origin: origin.clone(),
            active: true,
            metadata,
            created_at,
        };
        self.products.push(product);
        self.all_index.push(id);
        self.owner_index.append(&owner_key, id);
        self.origin_index.append(&origin, id);
        self.total_products = id;
        self.active_products = self.active_products + 1;
        proof {
            let post = registered(pre, owner_key@, origin@, metadata@, created_at);
            assert(views(self.products@) =~= post.products);
            assert(self.all_index@ =~= all_ids(self.products.len() as nat));
            assert(self@ == post);
            lemma_registered_wf(pre, owner_key@, origin@, metadata@, created_at);
        }
        Ok(id)
    }

    /// The products that positions `start + 1 ..= start + limit` of `log`
    /// name, stopping at the log's end. An ID with no product is left out.
    fn collect_page(&self, log: &Vec<u64>, start: u64, limit: u64) -> (r: Vec<Product>)
        requires
            self.wf(),
            valid_log(log@, self@.products.len()),
        ensures
            views(r@) == page(self@, log@, start, limit),
    {
        let n: usize = log.len();
        let lo: usize = if start < n as u64 {
            start as usize
        } else {
            n
        };
        let room: usize = n - lo;
        let hi: usize = if limit < room as u64 {
            lo + limit as usize
        } else {
            n
        };
        let ghost w = window(log@, start, limit);
        assert(w =~= log@.subrange(lo as int, hi as int));
        let mut out: Vec<Product> = Vec::new();
        let mut i: usize = lo;
        while i < hi
            invariant
                self.wf(),
                valid_log(log@, self@.products.len()),
                lo <= i <= hi <= n == log.len(),
                views(out@) =~= log@.subrange(lo as int, i as int).map_values(
                    |id: u64| product(self@, id),
                ),
            decreases hi - i,
        {
            let id = log[i];
            assert(1 <= id <= self@.products.len());
            let ghost before = out@;
            if id >= 1 && id <= self.total_products {
                let p = self.products[(id - 1) as usize].duplicate();
                out.push(p);
                assert(views(out@) =~= views(before).push(product(self@, id)));
            }
            assert(log@.subrange(lo as int, i + 1) =~= log@.subrange(lo as int, i as int).push(
                id,
            ));
            i = i + 1;
        }
        out
    }

    /// A page of all products, in registration order.
    pub fn get_all_products(&self, start: u64, limit: u64) -> (r: Vec<Product>)
        requires
            self.wf(),
        ensures
            views(r@) == page(self@, all_ids(self@.products.len()), start, limit),
    {
        self.collect_page(&self.all_index, start, limit)
    }

    /// A page of the products registered under `owner`, in registration order.
    pub fn get_products_by_owner(&self, owner: Address, start: u64, limit: u64) -> (r: Vec<
        Product,
    >)
        requires
            self.wf(),
        ensures
            views(r@) == page(self@, log_of(self@.owner_index, owner@), start, limit),
    {
        let log = self.owner_index.log(&owner.key);
        proof {
            if self@.owner_index.contains_key(owner.key@) {
                assert(valid_log(self@.owner_index[owner.key@], self@.products.len()));
            }
        }
        self.collect_page(&log, start, limit)
    }

    /// A page of the products registered with `origin`, in registration order.
    pub fn get_products_by_origin(&self, origin: String, start: u64, limit: u64) -> (r: Vec<
        Product,
    >)
        requires
            self.wf(),
        ensures
            views(r@) == page(self@, log_of(self@.origin_index, origin@), start, limit),
    {
        let log = self.origin_index.log(&origin);
        proof {
            if self@.origin_index.contains_key(origin@) {
                assert(valid_log(self@.origin_index[origin@], self@.products.len()));
            }
        }
        self.collect_page(&log, start, limit)
    }

    /// Hands product `product_id` from `owner` to `new_owner`: the previous
    /// owner's delegated entry is cleared and one for `new_owner` is set;
    /// other delegated entries stay.
    pub fn transfer_product(&mut self, owner: Address, product_id: u64, new_owner: Address) -> (r:
        Result<(), Error>)
        requires
            old(self).wf(),
        ensures
            final(self).wf(),
            !has_product(old(self)@, product_id) ==> r == Err::<(), Error>(Error::ProductNotFound)
                && final(self)@ == old(self)@,
            has_product(old(self)@, product_id) && product(old(self)@, product_id).owner != owner@
                ==> r == Err::<(), Error>(Error::Unauthorized) && final(self)@ == old(self)@,
            has_product(old(self)@, product_id) && product(old(self)@, product_id).owner == owner@
                ==> r == Ok::<(), Error>(()) && final(self)@ == transferred(
                old(self)@,
                product_id,
                new_owner@,
            ),
    {
        self.check_owner(&owner, product_id)?;
        let idx = (product_id - 1) as usize;
        let ghost pre = self@;
        let new_key = new_owner.key.clone();
        self.auth.revoke(product_id, &owner.key);
        let mut p = self.products[idx].duplicate();
        p.owner = new_owner;
        self.products.set(idx, p);
        self.auth.grant(product_id, &new_key);
        proof {
            let post = transferred(pre, product_id, new_key@);
            assert(views(self.products@) =~= post.products);
            assert(self@ == post);
        }
        Ok(())
    }

    /// Sets the delegated entry for (`product_id`, `actor`), on behalf of the owner.
    pub fn add_authorized_actor(&mut self, owner: Address, product_id: u64, actor: Address) -> (r:
        Result<(), Error>)
        requires
            old(self).wf(),
        ensures
            final(self).wf(),
            !has_product(old(self)@, product_id) ==> r == Err::<(), Error>(Error::ProductNotFound)
                && final(self)@ == old(self)@,
            has_product(old(self)@, product_id) && product(old(self)@, product_id).owner != owner@
                ==> r == Err::<(), Error>(Error::Unauthorized) && final(self)@ == old(self)@,
            has_product(old(self)@, product_id) && product(old(self)@, product_id).owner == owner@
                ==> r == Ok::<(), Error>(()) && final(self)@ == granted(
                old(self)@,
                product_id,
                actor@,
            ),
    {
        self.check_owner(&owner, product_id)?;
        let ghost pre = self@;
        self.auth.grant(product_id, &actor.key);
        assert(self@ == granted(pre, product_id, actor@));
        Ok(())
    }

    /// Clears the delegated entry for (`product_id`, `actor`), on behalf of the owner.
    pub fn remove_authorized_actor(&mut self, owner: Address, product_id: u64, actor: Address) -> (r:
        Result<(), Error>)
        requires
            old(self).wf(),
        ensures
            final(self).wf(),
            !has_product(old(self)@, product_id) ==> r == Err::<(), Error>(Error::ProductNotFound)
                && final(self)@ == old(self)@,
            has_product(old(self)@, product_id) && product(old(self)@, product_id).owner != owner@
                ==> r == Err::<(), Error>(Error::Unauthorized) && final(self)@ == old(self)@,
            has_product(old(self)@, product_id) && product(old(self)@, product_id).owner == owner@
                ==> r == Ok::<(), Error>(()) && final(self)@ == revoked(
                old(self)@,
                product_id,
                actor@,
            ),
    {
        self.check_owner(&owner, product_id)?;
        let ghost pre = self@;
        self.auth.revoke(product_id, &actor.key);
        assert(self@ == revoked(pre, product_id, actor@));
        Ok(())
    }

    /// Whether product `product_id` exists and `owner` is its current owner.
    fn check_owner(&self, owner: &Address, product_id: u64) -> (r: Result<(), Error>)
        requires
            self.wf(),
        ensures
            !has_product(self@, product_id) ==> r == Err::<(), Error>(Error::ProductNotFound),
            has_product(self@, product_id) && product(self@, product_id).owner != owner@ ==> r
                == Err::<(), Error>(Error::Unauthorized),
            has_product(self@, product_id) && product(self@, product_id).owner == owner@ ==> r
                == Ok::<(), Error>(()),
    {
        if product_id < 1 || product_id > self.total_products {
            return Err(Error::ProductNotFound);
        }
        if !(self.products[(product_id - 1) as usize].owner == *owner) {
            return Err(Error::Unauthorized);
        }
        Ok(())
    }
}

} // verus!
