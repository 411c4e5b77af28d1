use chain_logistics::{Address, ChainLogisticsContract, Error, Product};

fn address(key: &str) -> Address {
    Address::new(key.to_string())
}

fn ids(products: &[Product]) -> Vec<u64> {
    products.iter().map(|p| p.id).collect()
}

fn registry_of(n: u64) -> ChainLogisticsContract {
    let mut registry = ChainLogisticsContract::new();
    for i in 0..n {
        let owner = if i % 2 == 0 { "GEVEN" } else { "GODD" };
        registry
            .register_product(address(owner), "Kenya".to_string(), format!("item {}", i), 100 + i)
            .unwrap();
    }
    registry
}

#[test]
fn ids_are_dense_and_counted() {
    let mut registry = ChainLogisticsContract::new();
    for expected in 1..=7u64 {
        let id = registry
            .register_product(address("GA"), "Peru".to_string(), "m".to_string(), 5)
            .unwrap();
        assert_eq!(id, expected);
    }
    let stats = registry.get_stats();
    assert_eq!(stats.total_products, 7);
    assert_eq!(stats.active_products, 7);
}

#[test]
fn empty_registry_has_nothing() {
    let registry = ChainLogisticsContract::new();
    let stats = registry.get_stats();
    assert_eq!(stats.total_products, 0);
    assert_eq!(stats.active_products, 0);
    assert!(registry.get_product(1).is_none());
    assert!(registry.get_all_products(0, 10).is_empty());
    assert!(registry.get_products_by_owner(address("GA"), 0, 10).is_empty());
    assert!(registry.get_products_by_origin("Peru".to_string(), 0, 10).is_empty());
}

#[test]
fn product_record_holds_registration_fields() {
    let mut registry = ChainLogisticsContract::new();
    registry
        .register_product(address("GA"), "Peru".to_string(), "first".to_string(), 11)
        .unwrap();
    registry
        .register_product(address("GB"), "Chile".to_string(), "second".to_string(), 22)
        .unwrap();
    let p = registry.get_product(2).unwrap();
    assert_eq!(p.id, 2);
    assert_eq!(p.owner, address("GB"));
    assert_eq!(p.origin, "Chile");
    assert_eq!(p.metadata, "second");
    assert_eq!(p.created_at, 22);
    assert!(p.active);
    assert!(registry.get_product(0).is_none());
    assert!(registry.get_product(3).is_none());
}

#[test]
fn full_page_lists_everything_in_order() {
    let registry = registry_of(6);
    assert_eq!(ids(&registry.get_all_products(0, 6)), vec![1, 2, 3, 4, 5, 6]);
    assert_eq!(ids(&registry.get_all_products(0, 100)), vec![1, 2, 3, 4, 5, 6]);
}

#[test]
fn page_past_end_or_of_zero_limit_is_empty() {
    let registry = registry_of(4);
    assert!(registry.get_all_products(4, 3).is_empty());
    assert!(registry.get_all_products(9, 3).is_empty());
    assert!(registry.get_all_products(1, 0).is_empty());
    assert!(registry.get_all_products(u64::MAX, u64::MAX).is_empty());
    assert!(registry.get_products_by_owner(address("GEVEN"), 2, 5).is_empty());
}

#[test]
fn huge_limit_does_not_overflow() {
    let registry = registry_of(3);
    assert_eq!(ids(&registry.get_all_products(1, u64::MAX)), vec![2, 3]);
    assert_eq!(ids(&registry.get_products_by_owner(address("GEVEN"), 1, u64::MAX)), vec![3]);
}

#[test]
fn adjacent_pages_tile_the_sequence() {
    let registry = registry_of(7);
    let mut tiled = Vec::new();
    for (start, limit) in [(0u64, 3u64), (3, 1), (4, 2), (6, 5)] {
        tiled.extend(ids(&registry.get_all_products(start, limit)));
    }
    assert_eq!(tiled, vec![1, 2, 3, 4, 5, 6, 7]);
}

#[test]
fn owner_and_origin_listings_match_registrations() {
    let registry = registry_of(5);
    let even = registry.get_products_by_owner(address("GEVEN"), 0, 10);
    assert_eq!(ids(&even), vec![1, 3, 5]);
    assert!(even.iter().all(|p| p.owner == address("GEVEN")));
    let odd = registry.get_products_by_owner(address("GODD"), 0, 10);
    assert_eq!(ids(&odd), vec![2, 4]);
    assert_eq!(ids(&registry.get_products_by_owner(address("GEVEN"), 1, 1)), vec![3]);
    let kenya = registry.get_products_by_origin("Kenya".to_string(), 0, 10);
    assert_eq!(kenya.len(), 5);
    assert!(kenya.iter().all(|p| p.origin == "Kenya"));
    assert!(registry.get_products_by_origin("kenya".to_string(), 0, 10).is_empty());
}

#[test]
fn three_product_scenario() {
    let mut registry = ChainLogisticsContract::new();
    let a = address("GA");
    let b = address("GB");
    registry.register_product(a.clone(), "X".to_string(), "m".to_string(), 0).unwrap();
    registry.register_product(b.clone(), "Y".to_string(), "m".to_string(), 0).unwrap();
    registry.register_product(a.clone(), "Y".to_string(), "m".to_string(), 0).unwrap();
    assert_eq!(ids(&registry.get_products_by_owner(a, 0, 10)), vec![1, 3]);
    assert_eq!(ids(&registry.get_products_by_origin("Y".to_string(), 0, 10)), vec![2, 3]);
    assert_eq!(ids(&registry.get_products_by_origin("X".to_string(), 0, 10)), vec![1]);
}

#[test]
fn owner_is_authorized_after_registration_and_nobody_else() {
    let mut registry = ChainLogisticsContract::new();
    let id = registry
        .register_product(address("GA"), "X".to_string(), "m".to_string(), 0)
        .unwrap();
    assert!(registry.is_authorized(id, address("GA")));
    assert!(!registry.is_authorized(id, address("GB")));
    assert!(!registry.is_authorized(id + 1, address("GA")));
}

#[test]
fn grant_then_revoke_restores_unauthorized() {
    let mut registry = ChainLogisticsContract::new();
    let id = registry
        .register_product(address("GA"), "X".to_string(), "m".to_string(), 0)
        .unwrap();
    assert_eq!(registry.add_authorized_actor(address("GA"), id, address("GC")), Ok(()));
    assert_eq!(registry.add_authorized_actor(address("GA"), id, address("GC")), Ok(()));
    assert!(registry.is_authorized(id, address("GC")));
    assert_eq!(registry.remove_authorized_actor(address("GA"), id, address("GC")), Ok(()));
    assert!(!registry.is_authorized(id, address("GC")));
    assert_eq!(registry.remove_authorized_actor(address("GA"), id, address("GC")), Ok(()));
    assert!(registry.is_authorized(id, address("GA")));
}

#[test]
fn errors_for_missing_product_and_non_owner() {
    let mut registry = ChainLogisticsContract::new();
    let id = registry
        .register_product(address("GA"), "X".to_string(), "m".to_string(), 0)
        .unwrap();
    assert_eq!(
        registry.add_authorized_actor(address("GA"), 9, address("GC")),
        Err(Error::ProductNotFound)
    );
    assert_eq!(
        registry.remove_authorized_actor(address("GA"), 0, address("GC")),
        Err(Error::ProductNotFound)
    );
    assert_eq!(
        registry.transfer_product(address("GA"), 2, address("GB")),
        Err(Error::ProductNotFound)
    );
    assert_eq!(
        registry.transfer_product(address("GB"), id, address("GB")),
        Err(Error::Unauthorized)
    );
    assert_eq!(
        registry.remove_authorized_actor(address("GB"), id, address("GA")),
        Err(Error::Unauthorized)
    );
    assert_eq!(registry.get_product(id).unwrap().owner, address("GA"));
}

#[test]
fn transfer_moves_ownership_and_keeps_third_parties() {
    let mut registry = ChainLogisticsContract::new();
    let id = registry
        .register_product(address("GA"), "X".to_string(), "m".to_string(), 0)
        .unwrap();
    registry.add_authorized_actor(address("GA"), id, address("GC")).unwrap();
    registry.add_authorized_actor(address("GA"), id, address("GA")).unwrap();
    assert_eq!(registry.transfer_product(address("GA"), id, address("GB")), Ok(()));
    assert_eq!(registry.get_product(id).unwrap().owner, address("GB"));
    assert!(registry.is_authorized(id, address("GB")));
    assert!(registry.is_authorized(id, address("GC")));
    // The previous owner's own delegated entry is cleared too.
    assert!(!registry.is_authorized(id, address("GA")));
    // The owner index still lists the product under its registering owner.
    assert_eq!(ids(&registry.get_products_by_owner(address("GA"), 0, 10)), vec![1]);
}

#[test]
fn transfer_back_to_former_owner_keeps_the_new_entry() {
    let mut registry = ChainLogisticsContract::new();
    let id = registry
        .register_product(address("GA"), "X".to_string(), "m".to_string(), 0)
        .unwrap();
    registry.transfer_product(address("GA"), id, address("GB")).unwrap();
    registry.transfer_product(address("GB"), id, address("GA")).unwrap();
    assert_eq!(registry.get_product(id).unwrap().owner, address("GA"));
    assert!(registry.is_authorized(id, address("GA")));
    assert!(!registry.is_authorized(id, address("GB")));
}
