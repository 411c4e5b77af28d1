use vstd::prelude::*;
use crate::index::log_of;
use crate::types::{Product, ProductView};

verus! {

/// The registry as mathematical values. The product with ID `i` sits at
/// position `i - 1` of `products`; the global index is `all_ids` of its length.
pub struct RegistryView {
    pub products: Seq<ProductView>,
    pub owner_index: Map<Seq<char>, Seq<u64>>,
    pub origin_index: Map<Seq<char>, Seq<u64>>,
    pub delegated: Set<(u64, Seq<char>)>,
    pub active_products: nat,
}

/// The registry before any registration.
pub open spec fn empty_registry() -> RegistryView {
    RegistryView {
        products: Seq::empty(),
        owner_index: Map::empty(),
        origin_index: Map::empty(),
        delegated: Set::empty(),
        active_products: 0,
    }
}

/// The views of a sequence of products.
pub open spec fn views(s: Seq<Product>) -> Seq<ProductView> {
    s.map_values(|p: Product| p@)
}

/// The global index over `n` products: positions 1..n hold IDs 1..n.
pub open spec fn all_ids(n: nat) -> Seq<u64> {
    Seq::new(n, |i: int| (i + 1) as u64)
}

pub open spec fn has_product(v: RegistryView, id: u64) -> bool {
    1 <= id <= v.products.len()
}

pub open spec fn product(v: RegistryView, id: u64) -> ProductView {
    v.products[id - 1]
}

/// The ID the next registration receives.
pub open spec fn next_id(v: RegistryView) -> nat {
    v.products.len() + 1
}

/// The state after registering a product for `owner`.
pub open spec fn registered(
    v: RegistryView,
    owner: Seq<char>,
    origin: Seq<char>,
    metadata: Seq<char>,
    created_at: u64,
) -> RegistryView {
    let id = next_id(v) as u64;
    RegistryView {
        products: v.products.push(
            ProductView { id, owner, origin, active: true, metadata, created_at },
        ),
        owner_index: v.owner_index.insert(owner, log_of(v.owner_index, owner).push(id)),
        origin_index: v.origin_index.insert(origin, log_of(v.origin_index, origin).push(id)),
        delegated: v.delegated,
        active_products: v.active_products + 1,
    }
}

/// The positions `start + 1 ..= start + limit` of `log`, cut at its end.
pub open spec fn window(log: Seq<u64>, start: u64, limit: u64) -> Seq<u64> {
    let lo = if start < log.len() { start as int } else { log.len() as int };
    let hi = if start + limit < log.len() { start + limit } else { log.len() as int };
    log.subrange(lo, hi)
}

/// The products that a page of `log` lists, in the log's order.
pub open spec fn page(v: RegistryView, log: Seq<u64>, start: u64, limit: u64) -> Seq<ProductView> {
    window(log, start, limit).map_values(|id: u64| product(v, id))
}

/// The current owner, or a delegated entry, for an existing product; a
/// delegated entry alone otherwise.
pub open spec fn authorized(v: RegistryView, id: u64, actor: Seq<char>) -> bool {
    (has_product(v, id) && product(v, id).owner == actor) || v.delegated.contains((id, actor))
}

/// The state after a transfer of product `id` to `new_owner`: the previous
/// owner's delegated entry goes, one for the new owner comes.
pub open spec fn transferred(v: RegistryView, id: u64, new_owner: Seq<char>) -> RegistryView {
    let p = product(v, id);
    RegistryView {
        products: v.products.update(id - 1, ProductView { owner: new_owner, ..p }),
        delegated: v.delegated.remove((id, p.owner)).insert((id, new_owner)),
        ..v
    }
}

/// The state after a delegated entry for (`id`, `actor`) is set.
pub open spec fn granted(v: RegistryView, id: u64, actor: Seq<char>) -> RegistryView {
    RegistryView { delegated: v.delegated.insert((id, actor)), ..v }
}

/// The state after the delegated entry for (`id`, `actor`) is cleared.
pub open spec fn revoked(v: RegistryView, id: u64, actor: Seq<char>) -> RegistryView {
    RegistryView { delegated: v.delegated.remove((id, actor)), ..v }
}

/// Every entry of `log` names one of `n` products, in increasing order.
pub open spec fn valid_log(log: Seq<u64>, n: nat) -> bool {
    &&& forall|j: int| 0 <= j < log.len() ==> 1 <= #[trigger] log[j] <= n
    &&& forall|a: int, b: int| 0 <= a < b < log.len() ==> log[a] < log[b]
}

/// What holds of every reachable registry.
pub open spec fn registry_wf(v: RegistryView) -> bool {
    let n = v.products.len();
    &&& forall|i: int|
        0 <= i < n ==> (#[trigger] v.products[i]).id == i + 1 && v.products[i].active
    &&& forall|k: Seq<char>|
        #[trigger] v.owner_index.contains_key(k) ==> valid_log(v.owner_index[k], n)
    &&& forall|k: Seq<char>|
        #[trigger] v.origin_index.contains_key(k) ==> valid_log(v.origin_index[k], n)
    &&& forall|k: Seq<char>, j: int|
        #![trigger v.origin_index[k][j]]
        v.origin_index.contains_key(k) && 0 <= j < v.origin_index[k].len() ==> v.products[v.origin_index[k][j] - 1].origin == k
    &&& forall|e: (u64, Seq<char>)| #[trigger] v.delegated.contains(e) ==> 1 <= e.0 <= n
    &&& v.active_products == n
}

/// Appending the next ID keeps a log valid.
pub proof fn lemma_valid_push(log: Seq<u64>, n: nat)
    requires
        valid_log(log, n),
        n < u64::MAX,
    ensures
        valid_log(log.push((n + 1) as u64), n + 1),
{
    let l = log.push((n + 1) as u64);
    assert forall|j: int| 0 <= j < l.len() implies 1 <= #[trigger] l[j] <= n + 1 by {
        if j < log.len() {
            assert(l[j] == log[j]);
        }
    }
    assert forall|a: int, b: int| 0 <= a < b < l.len() implies l[a] < l[b] by {
        assert(l[a] == log[a]);
        assert(1 <= log[a] <= n);
    }
}

/// Registration keeps a well-formed registry well-formed.
pub proof fn lemma_registered_wf(
    v: RegistryView,
    owner: Seq<char>,
    origin: Seq<char>,
    metadata: Seq<char>,
    created_at: u64,
)
    requires
        registry_wf(v),
        v.products.len() < u64::MAX,
    ensures
        registry_wf(registered(v, owner, origin, metadata, created_at)),
{
    let w = registered(v, owner, origin, metadata, created_at);
    let n = v.products.len();
    assert forall|k: Seq<char>| #[trigger] w.owner_index.contains_key(k) implies valid_log(
        w.owner_index[k],
        n + 1,
    ) by {
        if k != owner {
            assert(v.owner_index.contains_key(k));
        } else {
            if v.owner_index.contains_key(k) {
                assert(valid_log(v.owner_index[k], n));
            }
            lemma_valid_push(log_of(v.owner_index, k), n);
        }
    }
    assert forall|k: Seq<char>| #[trigger] w.origin_index.contains_key(k) implies valid_log(
        w.origin_index[k],
        n + 1,
    ) by {
        if k != origin {
            assert(v.origin_index.contains_key(k));
        } else {
            if v.origin_index.contains_key(k) {
                assert(valid_log(v.origin_index[k], n));
            }
            lemma_valid_push(log_of(v.origin_index, k), n);
        }
    }
    assert forall|k: Seq<char>, j: int|
        w.origin_index.contains_key(k) && 0 <= j < w.origin_index[k].len() implies
        w.products[#[trigger] w.origin_index[k][j] - 1].origin == k by {
        if k != origin || j < log_of(v.origin_index, origin).len() {
            assert(v.origin_index.contains_key(k));
            assert(w.origin_index[k][j] == v.origin_index[k][j]);
            assert(1 <= v.origin_index[k][j] <= n);
        }
    }
}

} // verus!
