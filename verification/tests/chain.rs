use scematica::chain::{by_name, mainnet, mainnet_venues, networks, testnet, EndpointKind};

#[test]
fn venues_are_distinct_and_well_formed() {
    let venues = mainnet_venues();
    assert!(venues.len() >= 2);
    for v in &venues {
        assert!(v.router.starts_with("0x") && v.router.len() == 42);
        assert!(v.factory.starts_with("0x") && v.factory.len() == 42);
    }
    assert_ne!(venues[0].factory, venues[1].factory);
}

#[test]
fn mainnet_prefers_a_node_over_the_explorer_proxy() {
    let m = mainnet();
    assert_eq!(m.endpoints[0].kind, EndpointKind::Node);
    assert!(m.endpoints.iter().any(|e| e.kind == EndpointKind::ExplorerProxy));
}

#[test]
fn networks_resolve_by_alias() {
    assert_eq!(by_name("mainnet").unwrap().chain_id, 677);
    assert_eq!(by_name("968").unwrap().chain_id, 968);
    assert!(by_name("ethereum").is_none());
}

#[test]
fn every_endpoint_is_https() {
    for n in networks() {
        assert!(n.endpoints.iter().all(|e| e.url.starts_with("https://")));
    }
}

#[test]
fn testnet_has_no_silent_read_fallback() {
    assert!(testnet().endpoints.iter().all(|e| e.kind == EndpointKind::Node));
}

#[test]
fn aliases_ignore_case_but_not_spelling() {
    assert_eq!(by_name("MainNet").unwrap().chain_id, 677);
    assert_eq!(by_name("BOT").unwrap().chain_id, 677);
    assert_eq!(by_name("Bohr").unwrap().chain_id, 968);
    assert_eq!(by_name("testnet").unwrap().name, "BOT Chain Testnet");
    assert!(by_name("main net").is_none());
    assert!(by_name("").is_none());
    assert!(by_name("6770").is_none());
}
