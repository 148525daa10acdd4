// Tests of route metadata, snapshots and the route resolver.

use ari::error::AriError;
use ari::rib::Rib;
use ari::routing::{RouteMetadata, RouteResolver, RouteResolverConfig, RouteSnapshot};
use std::time::{SystemTime, UNIX_EPOCH};

fn now_secs() -> u64 {
    SystemTime::now().duration_since(UNIX_EPOCH).unwrap().as_secs()
}

#[test]
fn test_route_metadata_expiration() {
    let now = now_secs();

    let route1 = RouteMetadata {
        destination: 100,
        next_hop_address: "127.0.0.1:8000".to_string(),
        created_at: now,
        ttl_seconds: 0,
    };
    assert!(!route1.is_expired());

    let route2 = RouteMetadata {
        destination: 200,
        next_hop_address: "127.0.0.1:8001".to_string(),
        created_at: now - 5,
        ttl_seconds: 10,
    };
    assert!(!route2.is_expired());

    let route3 = RouteMetadata {
        destination: 300,
        next_hop_address: "127.0.0.1:8002".to_string(),
        created_at: now - 15,
        ttl_seconds: 10,
    };
    assert!(route3.is_expired());
}

#[test]
fn test_snapshot_filter_valid() {
    let now = now_secs();

    let routes = vec![
        RouteMetadata {
            destination: 100,
            next_hop_address: "127.0.0.1:8000".to_string(),
            created_at: now - 5,
            ttl_seconds: 10,
        },
        RouteMetadata {
            destination: 200,
            next_hop_address: "127.0.0.1:8001".to_string(),
            created_at: now - 20,
            ttl_seconds: 10,
        },
        RouteMetadata {
            destination: 300,
            next_hop_address: "127.0.0.1:8002".to_string(),
            created_at: now - 100,
            ttl_seconds: 0,
        },
    ];

    let snapshot = RouteSnapshot::new(routes);
    let valid = snapshot.filter_valid();

    assert_eq!(valid.len(), 2);
    assert!(valid.iter().any(|r| r.destination == 100));
    assert!(valid.iter().any(|r| r.destination == 300));
}

// Loading a snapshot discards exactly the expired entries.
#[test]
fn snapshot_load_discards_expired() {
    let base = 1000u64;
    let routes = vec![
        RouteMetadata {
            destination: 1,
            next_hop_address: "127.0.0.1:7001".to_string(),
            created_at: base - 5,
            ttl_seconds: 10,
        },
        RouteMetadata {
            destination: 2,
            next_hop_address: "127.0.0.1:7002".to_string(),
            created_at: base - 50,
            ttl_seconds: 10,
        },
        RouteMetadata {
            destination: 3,
            next_hop_address: "127.0.0.1:7003".to_string(),
            created_at: base - 500,
            ttl_seconds: 0,
        },
    ];
    let snapshot = RouteSnapshot::new_at(routes, base);

    let kept = snapshot.filter_valid_at(base);
    assert_eq!(kept.len(), 2);
    assert!(kept.iter().all(|r| !r.is_expired_at(base)));
    assert!(kept.iter().any(|r| r.destination == 1));
    assert!(kept.iter().any(|r| r.destination == 3));

    let mut rib = Rib::new();
    let mut resolver = RouteResolver::new(RouteResolverConfig::default());
    let loaded = resolver.load_from_snapshot_at(&mut rib, &snapshot, base).unwrap();
    assert_eq!(loaded, 2);
}

// Adding a dynamic route for the same destination twice leaves exactly one
// entry; the second call overwrites the first.
#[test]
fn add_dynamic_route_idempotent() {
    let mut rib = Rib::new();
    let mut resolver = RouteResolver::new(RouteResolverConfig::default());

    resolver
        .add_dynamic_route_at(&mut rib, 2000, "10.0.0.1:7000".to_string(), Some(60), 100)
        .unwrap();
    resolver
        .add_dynamic_route_at(&mut rib, 2000, "10.0.0.2:7000".to_string(), Some(60), 101)
        .unwrap();

    let snapshot = resolver.snapshot_at(200);
    assert_eq!(snapshot.routes.len(), 1);
    assert_eq!(snapshot.routes[0].destination, 2000);
    assert_eq!(snapshot.routes[0].next_hop_address, "10.0.0.2:7000".to_string());

    // The RIB object followed the overwrite.
    let hop = resolver.resolve_next_hop_at(&mut rib, 2000, 102).unwrap();
    assert_eq!(hop, "10.0.0.2:7000".to_string());
}

// Static routes win over dynamic ones; a missing route fails.
#[test]
fn resolution_order_static_first() {
    let mut rib = Rib::new();
    let mut resolver = RouteResolver::new(RouteResolverConfig::default());

    resolver
        .add_dynamic_route_at(&mut rib, 42, "10.0.0.9:7000".to_string(), Some(60), 0)
        .unwrap();
    rib.create_at(
        "/routing/static/42".to_string(),
        "static_route".to_string(),
        ari::rib::RibValue::Struct(vec![(
            "next_hop_address".to_string(),
            ari::rib::RibValue::String("10.0.0.1:7000".to_string()),
        )]),
        0,
    )
    .unwrap();

    let hop = resolver.resolve_next_hop_at(&mut rib, 42, 1).unwrap();
    assert_eq!(hop, "10.0.0.1:7000".to_string());

    let missing = resolver.resolve_next_hop_at(&mut rib, 43, 1);
    assert!(missing.is_err());
}

// An expired dynamic route is removed on resolution and the lookup fails.
#[test]
fn expired_dynamic_route_removed() {
    let mut rib = Rib::new();
    let mut resolver = RouteResolver::new(RouteResolverConfig::default());

    resolver
        .add_dynamic_route_at(&mut rib, 7, "10.0.0.7:7000".to_string(), Some(10), 100)
        .unwrap();

    // Well before expiry it resolves.
    let hop = resolver.resolve_next_hop_at(&mut rib, 7, 105).unwrap();
    assert_eq!(hop, "10.0.0.7:7000".to_string());

    // Past the TTL it is dropped.
    let gone = resolver.resolve_next_hop_at(&mut rib, 7, 200);
    assert!(gone.is_err());
    assert!(matches!(gone.unwrap_err(), AriError::Rmt(_)));
    assert!(rib.read("/routing/dynamic/7").is_none());
}

// Route statistics count expired and live entries exactly.
#[test]
fn route_stats_counts() {
    let mut rib = Rib::new();
    let mut resolver = RouteResolver::new(RouteResolverConfig::default());
    resolver
        .add_dynamic_route_at(&mut rib, 1, "10.0.0.1:1".to_string(), Some(10), 100)
        .unwrap();
    resolver
        .add_dynamic_route_at(&mut rib, 2, "10.0.0.2:2".to_string(), Some(1000), 100)
        .unwrap();

    let stats = resolver.get_stats_at(150);
    assert_eq!(stats.total_dynamic_routes, 2);
    assert_eq!(stats.expired_routes, 1);
    assert_eq!(stats.valid_routes, 1);
}

// A snapshot route whose remaining TTL is exactly zero at load time is not
// installed: it would otherwise come back as a never-expiring route.
#[test]
fn snapshot_load_skips_routes_at_ttl_boundary() {
    let base = 1000u64;
    let routes = vec![
        RouteMetadata {
            destination: 7,
            next_hop_address: "127.0.0.1:7007".to_string(),
            created_at: base - 10,
            ttl_seconds: 10,
        },
        RouteMetadata {
            destination: 8,
            next_hop_address: "127.0.0.1:7008".to_string(),
            created_at: base - 9,
            ttl_seconds: 10,
        },
    ];
    let snapshot = RouteSnapshot::new_at(routes, base);

    let mut rib = Rib::new();
    let mut resolver = RouteResolver::new(RouteResolverConfig::default());
    let loaded = resolver.load_from_snapshot_at(&mut rib, &snapshot, base).unwrap();
    assert_eq!(loaded, 1);
    let hop = resolver.resolve_next_hop_at(&mut rib, 8, base).unwrap();
    assert_eq!(hop, "127.0.0.1:7008");
    assert!(resolver.resolve_next_hop_at(&mut rib, 7, base).is_err());
}

// Noting a route fills the cache exactly as installing it would, so the
// snapshot built afterwards carries it.
#[test]
fn noted_route_appears_in_snapshot() {
    let mut resolver = RouteResolver::new(RouteResolverConfig::default());
    resolver.note_route_at(42, "10.0.0.9:4242".to_string(), Some(60), 500);
    resolver.note_route_at(42, "10.0.0.9:4243".to_string(), Some(60), 600);
    let snapshot = resolver.snapshot_at(700);
    assert_eq!(snapshot.routes.len(), 1);
    assert_eq!(snapshot.routes[0].destination, 42);
    assert_eq!(snapshot.routes[0].next_hop_address, "10.0.0.9:4243");
}
