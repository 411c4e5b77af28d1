use vstd::prelude::*;
use crate::index::log_of;
use crate::model::{
    all_ids, authorized, empty_registry, granted, has_product, lemma_registered_wf, next_id, page,
    product, registered, registry_wf, revoked, transferred, valid_log, window, RegistryView,
};
use crate::types::ProductView;

verus! {

/// One registration request, as plain values.
pub struct Registration {
    pub owner: Seq<char>,
    pub origin: Seq<char>,
    pub metadata: Seq<char>,
    pub created_at: u64,
}

/// The registry after `regs` are registered, in order, into an empty one.
pub open spec fn register_all(regs: Seq<Registration>) -> RegistryView
    decreases regs.len(),
{
    if regs.len() == 0 {
        empty_registry()
    } else {
        let r = regs.last();
        registered(register_all(regs.drop_last()), r.owner, r.origin, r.metadata, r.created_at)
    }
}

pub open spec fn owned_by(k: Seq<char>) -> spec_fn(Registration) -> bool {
    |r: Registration| r.owner == k
}

pub open spec fn from_origin(k: Seq<char>) -> spec_fn(Registration) -> bool {
    |r: Registration| r.origin == k
}

proof fn lemma_register_all(regs: Seq<Registration>)
    requires
        regs.len() < u64::MAX,
    ensures
        register_all(regs).products.len() == regs.len(),
        registry_wf(register_all(regs)),
    decreases regs.len(),
{
    if regs.len() > 0 {
        let r = regs.last();
        lemma_register_all(regs.drop_last());
        lemma_registered_wf(
            register_all(regs.drop_last()),
            r.owner,
            r.origin,
            r.metadata,
            r.created_at,
        );
    }
}

/// N registrations into an empty registry hand out the IDs 1..N in order:
/// the `i`-th (from 0) receives `i + 1`. Afterwards the registry holds N
/// products, the product at position `i` has ID `i + 1`, and the registry is
/// well formed.
pub proof fn law_ids_dense(regs: Seq<Registration>)
    requires
        regs.len() < u64::MAX,
    ensures
        forall|i: int| 0 <= i < regs.len() ==> next_id(#[trigger] register_all(regs.take(i))) == i + 1,
        register_all(regs).products.len() == regs.len(),
        forall|i: int|
            0 <= i < regs.len() ==> (#[trigger] register_all(regs).products[i]).id == i + 1,
        registry_wf(register_all(regs)),
{
    lemma_register_all(regs);
    assert forall|i: int| 0 <= i < regs.len() implies next_id(
        #[trigger] register_all(regs.take(i)),
    ) == i + 1 by {
        lemma_register_all(regs.take(i));
    }
}

/// A page of the global index is the matching stretch of the products in
/// registration order: from position 0 with limit N it is all N of them, and
/// from a start at or past N it is empty.
pub proof fn law_all_products_page(v: RegistryView, start: u64, limit: u64)
    requires
        v.products.len() <= u64::MAX,
    ensures
        page(v, all_ids(v.products.len()), start, limit) == v.products.subrange(
            if start < v.products.len() { start as int } else { v.products.len() as int },
            if start + limit < v.products.len() { start + limit } else { v.products.len() as int },
        ),
        page(v, all_ids(v.products.len()), 0, v.products.len() as u64) == v.products,
        start >= v.products.len() ==> page(v, all_ids(v.products.len()), start, limit)
            == Seq::<ProductView>::empty(),
{
    let n = v.products.len();
    assert(page(v, all_ids(n), start, limit) =~= v.products.subrange(
        if start < n { start as int } else { n as int },
        if start + limit < n { start + limit } else { n as int },
    ));
    assert(page(v, all_ids(n), 0, n as u64) =~= v.products);
    if start >= n {
        assert(page(v, all_ids(n), start, limit) =~= Seq::<ProductView>::empty());
    }
}

/// Two adjacent pages of any index, one of `a` positions from `start` and one
/// of `b` positions after it, together list what one page of `a + b`
/// positions from `start` lists: no gap, no overlap.
pub proof fn law_pages_tile(v: RegistryView, log: Seq<u64>, start: u64, a: u64, b: u64)
    requires
        start + a + b <= u64::MAX,
    ensures
        page(v, log, start, a) + page(v, log, (start + a) as u64, b) == page(
            v,
            log,
            start,
            (a + b) as u64,
        ),
{
    let w1 = window(log, start, a);
    let w2 = window(log, (start + a) as u64, b);
    let w = window(log, start, (a + b) as u64);
    assert(w1 + w2 =~= w);
    let f = |id: u64| product(v, id);
    assert((w1 + w2).map_values(f) =~= w1.map_values(f) + w2.map_values(f));
}

/// After registrations alone, the owner index of `k` lists exactly the
/// products registered under `k`: each is owned by `k`, they come in
/// registration order, there are as many as registrations under `k`, and
/// every page of the index lists only products owned by `k`.
pub proof fn law_owner_listing(regs: Seq<Registration>, k: Seq<char>)
    requires
        regs.len() < u64::MAX,
    ensures
        log_of(register_all(regs).owner_index, k).len() == regs.filter(owned_by(k)).len(),
        valid_log(log_of(register_all(regs).owner_index, k), regs.len()),
        forall|j: int|
            0 <= j < log_of(register_all(regs).owner_index, k).len() ==> product(
                register_all(regs),
                #[trigger] log_of(register_all(regs).owner_index, k)[j],
            ).owner == k,
        forall|start: u64, limit: u64, j: int|
            0 <= j < page(register_all(regs), log_of(register_all(regs).owner_index, k), start, limit).len()
                ==> (#[trigger] page(register_all(regs), log_of(register_all(regs).owner_index, k), start, limit)[j]).owner == k,
    decreases regs.len(),
{
    let v = register_all(regs);
    let log = log_of(v.owner_index, k);
    lemma_register_all(regs);
    if v.owner_index.contains_key(k) {
        assert(valid_log(v.owner_index[k], regs.len()));
    }
    if regs.len() > 0 {
        let prev = regs.drop_last();
        let v0 = register_all(prev);
        let log0 = log_of(v0.owner_index, k);
        law_owner_listing(prev, k);
        reveal(Seq::filter);
        assert(regs.filter(owned_by(k)) == if owned_by(k)(regs.last()) {
            prev.filter(owned_by(k)).push(regs.last())
        } else {
            prev.filter(owned_by(k))
        });
        assert forall|j: int| 0 <= j < log.len() implies product(v, #[trigger] log[j]).owner
            == k by {
            if j < log0.len() {
                assert(log[j] == log0[j]);
                assert(1 <= log0[j] <= prev.len());
                assert(v.products[log0[j] - 1] == v0.products[log0[j] - 1]);
            }
        }
    }
    assert forall|start: u64, limit: u64, j: int|
        0 <= j < page(v, log, start, limit).len() implies (#[trigger] page(
            v,
            log,
            start,
            limit,
        )[j]).owner == k by {
        let lo = if start < log.len() { start as int } else { log.len() as int };
        assert(window(log, start, limit)[j] == log[lo + j]);
    }
}

/// After registrations alone, the origin index of `k` lists exactly the
/// products registered with origin `k`: each has origin `k`, they come in
/// registration order, there are as many as registrations with origin `k`,
/// and every page of the index lists only products with origin `k`.
pub proof fn law_origin_listing(regs: Seq<Registration>, k: Seq<char>)
    requires
        regs.len() < u64::MAX,
    ensures
        log_of(register_all(regs).origin_index, k).len() == regs.filter(from_origin(k)).len(),
        valid_log(log_of(register_all(regs).origin_index, k), regs.len()),
        forall|j: int|
            0 <= j < log_of(register_all(regs).origin_index, k).len() ==> product(
                register_all(regs),
                #[trigger] log_of(register_all(regs).origin_index, k)[j],
            ).origin == k,
        forall|start: u64, limit: u64, j: int|
            0 <= j < page(register_all(regs), log_of(register_all(regs).origin_index, k), start, limit).len()
                ==> (#[trigger] page(register_all(regs), log_of(register_all(regs).origin_index, k), start, limit)[j]).origin == k,
    decreases regs.len(),
{
    let v = register_all(regs);
    let log = log_of(v.origin_index, k);
    lemma_register_all(regs);
    if v.origin_index.contains_key(k) {
        assert(valid_log(v.origin_index[k], regs.len()));
    }
    if regs.len() > 0 {
        let prev = regs.drop_last();
        let v0 = register_all(prev);
        let log0 = log_of(v0.origin_index, k);
        law_origin_listing(prev, k);
        reveal(Seq::filter);
        assert(regs.filter(from_origin(k)) == if from_origin(k)(regs.last()) {
            prev.filter(from_origin(k)).push(regs.last())
        } else {
            prev.filter(from_origin(k))
        });
        assert forall|j: int| 0 <= j < log.len() implies product(v, #[trigger] log[j]).origin
            == k by {
            if j < log0.len() {
                assert(log[j] == log0[j]);
                assert(1 <= log0[j] <= prev.len());
                assert(v.products[log0[j] - 1] == v0.products[log0[j] - 1]);
            }
        }
    }
    assert forall|start: u64, limit: u64, j: int|
        0 <= j < page(v, log, start, limit).len() implies (#[trigger] page(
            v,
            log,
            start,
            limit,
        )[j]).origin == k by {
        let lo = if start < log.len() { start as int } else { log.len() as int };
        assert(window(log, start, limit)[j] == log[lo + j]);
    }
}

/// Right after a registration its owner is authorized for the new product,
/// and no other address is.
pub proof fn law_registration_authorizes(
    v: RegistryView,
    owner: Seq<char>,
    origin: Seq<char>,
    metadata: Seq<char>,
    created_at: u64,
    other: Seq<char>,
)
    requires
        registry_wf(v),
        v.products.len() < u64::MAX,
    ensures
        authorized(registered(v, owner, origin, metadata, created_at), next_id(v) as u64, owner),
        other != owner ==> !authorized(
            registered(v, owner, origin, metadata, created_at),
            next_id(v) as u64,
            other,
        ),
{
    let id = next_id(v) as u64;
    if v.delegated.contains((id, other)) {
        assert(1 <= id <= v.products.len());
    }
}

/// Granting an entry makes `actor` authorized for an existing product, and
/// clearing it makes `actor` unauthorized again unless `actor` owns it.
pub proof fn law_grant_then_revoke(v: RegistryView, id: u64, actor: Seq<char>)
    requires
        has_product(v, id),
    ensures
        authorized(granted(v, id, actor), id, actor),
        actor != product(v, id).owner ==> !authorized(
            revoked(granted(v, id, actor), id, actor),
            id,
            actor,
        ),
        actor != product(v, id).owner ==> !authorized(revoked(v, id, actor), id, actor),
{
}

/// After a transfer of an existing product from its owner to another
/// address: the new owner owns it and is authorized, the previous owner is
/// not, and every other address that held a delegated entry still does.
pub proof fn law_transfer(v: RegistryView, id: u64, new_owner: Seq<char>, other: Seq<char>)
    requires
        has_product(v, id),
        product(v, id).owner != new_owner,
    ensures
        has_product(transferred(v, id, new_owner), id),
        product(transferred(v, id, new_owner), id).owner == new_owner,
        authorized(transferred(v, id, new_owner), id, new_owner),
        !authorized(transferred(v, id, new_owner), id, product(v, id).owner),
        other != product(v, id).owner && v.delegated.contains((id, other)) ==> authorized(
            transferred(v, id, new_owner),
            id,
            other,
        ),
{
}

} // verus!
