use tv_shell::capabilities::{CapabilitySnapshot, Chrome, Feature, Gate};
use tv_shell::routes::{build_router, page_routes, route_table, Method, Route};

fn has(routes: &[Route], method: Method, path: &str) -> bool {
    routes.iter().any(|r| r.path == path && r.method == method)
}

#[test]
fn the_table_has_every_route_once() {
    let table = route_table();
    assert_eq!(table.len(), 90);
    for (i, r) in table.iter().enumerate() {
        assert!(!has(&table[..i], r.method, r.path), "{}", r.path);
    }
}

#[test]
fn a_silent_node_leaves_the_recovery_surface() {
    let routes = build_router(true, &CapabilitySnapshot::unreachable());
    assert!(routes.iter().all(|r| r.gate == Gate::Recovery));
    assert!(has(&routes, Method::Get, "/"));
    assert!(has(&routes, Method::Get, "/login"));
    let all = route_table();
    let recovery = all.iter().filter(|r| r.gate == Gate::Recovery).count();
    assert_eq!(routes.len(), recovery);
}

#[test]
fn dangerous_routes_need_permission() {
    let caps = CapabilitySnapshot::fully_capable();
    let tame = build_router(false, &caps);
    let wild = build_router(true, &caps);
    assert!(tame.iter().all(|r| !r.dangerous));
    assert_eq!(wild.len(), route_table().len());
    assert!(wild.iter().any(|r| r.dangerous));
    assert!(wild.len() > tame.len());
}

#[test]
fn a_feature_brings_its_routes() {
    let caps = CapabilitySnapshot {
        handshake_ok: true,
        node_id: "htpc-1".to_string(),
        features: vec![Feature::Cec],
    };
    let routes = build_router(false, &caps);
    for r in route_table() {
        let want = !r.dangerous && matches!(r.gate, Gate::Recovery | Gate::Node | Gate::Cec);
        assert_eq!(has(&routes, r.method, r.path), want, "{}", r.path);
    }
}

#[test]
fn links_of_a_page_are_registered() {
    for caps in [CapabilitySnapshot::unreachable(), CapabilitySnapshot::fully_capable()] {
        let routes = build_router(false, &caps);
        for link in Chrome::new(&caps, "dashboard").nav {
            assert!(has(&routes, Method::Get, link.href), "{}", link.href);
        }
    }
}

#[test]
fn the_pages_of_the_node_need_the_node() {
    assert!(page_routes(&CapabilitySnapshot::unreachable()).is_empty());
    let all = page_routes(&CapabilitySnapshot::fully_capable());
    assert_eq!(all.len(), 13);
    assert!(has(&all, Method::Post, "/shell/apps/save"));
    assert!(has(&all, Method::Post, "/devices/display-audio/mode/confirm"));
    assert!(!has(&all, Method::Get, "/devices/display-audio/mode/confirm"));
    let table = route_table();
    for (i, r) in all.iter().enumerate() {
        assert!(!r.dangerous);
        assert!(!has(&all[..i], r.method, r.path), "{}", r.path);
        assert!(table.iter().all(|t| t.path != r.path), "{}", r.path);
    }
    let bare = page_routes(&CapabilitySnapshot {
        handshake_ok: true,
        node_id: "htpc-1".to_string(),
        features: vec![],
    });
    assert_eq!(bare.len(), 5);
    assert!(bare.iter().all(|r| r.gate == Gate::Node));
}
