use actix_bootstrap::gateway::config::{
    default_hc_interval, default_hc_timeout, default_true, default_weight, GatewayConfig, GatewaySettings,
    HealthCheckConfig, LoadBalance, RouteConfig, ServerConfig,
};
use actix_bootstrap::gateway::route::{
    check_backends, find_route, probe_targets, routes_from_config, HealthChange, HealthSummary, Route,
};

fn route_config(name: &str, prefix: &str, strip: bool, checked: bool, urls: &[&str]) -> RouteConfig {
    RouteConfig {
        name: name.to_string(),
        prefix: prefix.to_string(),
        strip_prefix: strip,
        load_balance: LoadBalance::default(),
        health_check: if checked {
            Some(HealthCheckConfig { path: "/health".to_string(), interval_ms: 10_000, timeout_ms: 2_000 })
        } else {
            None
        },
        servers: urls.iter().map(|u| ServerConfig { url: u.to_string(), weight: 1 }).collect(),
    }
}

#[test]
fn config_defaults() {
    assert!(default_true());
    assert_eq!(default_weight(), 1);
    assert_eq!(default_hc_interval(), 10_000);
    assert_eq!(default_hc_timeout(), 2_000);
    assert_eq!(LoadBalance::default(), LoadBalance::RoundRobin);
}

#[test]
fn from_config_without_health_check_trusts_servers() {
    let cfg = route_config("auth", "/auth", true, false, &["http://127.0.0.1:3344", "http://[::1]:3345"]);
    let r = Route::from_config(&cfg);
    assert_eq!(r.name, "auth");
    assert_eq!(r.prefix, "/auth");
    assert!(r.strip_prefix);
    assert_eq!(r.rr_counter, 0);
    assert!(r.health_check.is_none());
    assert_eq!(r.servers.len(), 2);
    assert_eq!(r.servers[0].url, "http://127.0.0.1:3344");
    assert_eq!(r.servers[0].host, "127.0.0.1");
    assert_eq!(r.servers[0].port, 3344);
    assert_eq!(r.servers[1].host, "::1");
    assert_eq!(r.servers[1].port, 3345);
    assert!(r.servers.iter().all(|s| s.healthy));
    assert_eq!(r.health_summary(), HealthSummary::Unchecked { servers: 2 });
}

#[test]
fn from_config_with_health_check_waits_for_probe() {
    let cfg = route_config("booking", "/booking", true, true, &["http://127.0.0.1:1111"]);
    let r = Route::from_config(&cfg);
    assert!(r.servers.iter().all(|s| !s.healthy));
    let hc = r.health_check.as_ref().unwrap();
    assert_eq!(hc.path, "/health");
    assert_eq!(hc.interval_ms, 10_000);
    assert_eq!(hc.timeout_ms, 2_000);
    assert_eq!(r.health_summary(), HealthSummary::AllUnhealthy);
}

#[test]
fn check_backends_finds_first_invalid_server() {
    let good = route_config("a", "/a", true, false, &["http://h:1", "h:2"]);
    assert_eq!(check_backends(&good), None);
    let bad = route_config("a", "/a", true, false, &["http://h:1", "http://nohost", "http://h:x"]);
    assert_eq!(check_backends(&bad), Some(1));
}

#[test]
fn matches_prefix_on_segment_boundary() {
    let r = Route::from_config(&route_config("auth", "/auth", true, false, &["h:1"]));
    assert!(r.matches("/auth"));
    assert!(r.matches("/auth/"));
    assert!(r.matches("/auth/login"));
    assert!(!r.matches("/authx"));
    assert!(!r.matches("/aut"));
    assert!(!r.matches("/booking/auth"));
    assert!(!r.matches(""));
}

#[test]
fn root_prefix_matches_only_rooted_paths() {
    let r = Route::from_config(&route_config("root", "", true, false, &["h:1"]));
    assert!(r.matches(""));
    assert!(r.matches("/anything"));
    assert!(!r.matches("x"));
}

#[test]
fn find_route_takes_first_match() {
    let cfg = GatewayConfig {
        gateway: GatewaySettings { listen: "0.0.0.0:80".to_string() },
        routes: vec![
            route_config("auth", "/auth", true, false, &["h:1"]),
            route_config("booking", "/booking", true, false, &["h:2"]),
            route_config("booking-api", "/booking/api", true, false, &["h:3"]),
            route_config("mcp", "/mcp_service", true, false, &["h:4"]),
        ],
    };
    let routes = routes_from_config(&cfg);
    assert_eq!(routes.len(), 4);
    assert_eq!(find_route(&routes, "/auth/login"), Some(0));
    assert_eq!(find_route(&routes, "/booking/api/slots"), Some(1));
    assert_eq!(find_route(&routes, "/mcp_service/tools"), Some(3));
    assert_eq!(find_route(&routes, "/unknown"), None);
    assert_eq!(find_route(&Vec::new(), "/auth"), None);
}

#[test]
fn round_robin_cycles_through_servers() {
    let mut r = Route::from_config(&route_config("svc", "/svc", true, false, &["h:1", "h:2", "h:3"]));
    let ports: Vec<u16> = (0..7).map(|_| r.next_server().unwrap().1).collect();
    assert_eq!(ports, vec![1, 2, 3, 1, 2, 3, 1]);
    assert_eq!(r.rr_counter, 7);
}

#[test]
fn round_robin_skips_unhealthy_servers() {
    let mut r = Route::from_config(&route_config("svc", "/svc", true, false, &["h:1", "h:2", "h:3"]));
    assert_eq!(r.set_server_health(1, false), HealthChange::WentDown);
    assert_eq!(r.healthy_count(), 2);
    let ports: Vec<u16> = (0..4).map(|_| r.next_server().unwrap().1).collect();
    assert_eq!(ports, vec![1, 3, 1, 3]);
    assert_eq!(r.set_server_health(1, true), HealthChange::Recovered);
    assert_eq!(r.set_server_health(1, true), HealthChange::Unchanged);
    assert_eq!(r.set_server_health(0, true), HealthChange::Unchanged);
    // counter stands at 4: 4 % 3 == 1
    assert_eq!(r.next_server(), Some(("h".to_string(), 2)));
    assert_eq!(r.health_summary(), HealthSummary::Unchecked { servers: 3 });
}

#[test]
fn no_healthy_server_gives_none_and_keeps_counter() {
    let mut r = Route::from_config(&route_config("svc", "/svc", true, true, &["h:1", "h:2"]));
    r.rr_counter = 5;
    assert_eq!(r.next_server(), None);
    assert_eq!(r.rr_counter, 5);
    assert_eq!(r.set_server_health(1, true), HealthChange::Recovered);
    assert_eq!(r.health_summary(), HealthSummary::Healthy { healthy: 1, total: 2 });
    assert_eq!(r.next_server(), Some(("h".to_string(), 2)));
    assert_eq!(r.rr_counter, 6);
}

#[test]
fn counter_wraps_at_maximum() {
    let mut r = Route::from_config(&route_config("svc", "/svc", true, false, &["h:1", "h:2"]));
    r.rr_counter = usize::MAX;
    // usize::MAX is odd, so it picks the second server
    assert_eq!(r.next_server(), Some(("h".to_string(), 2)));
    assert_eq!(r.rr_counter, 0);
    assert_eq!(r.next_server(), Some(("h".to_string(), 1)));
}

#[test]
fn every_healthy_server_is_visited_within_one_cycle() {
    let mut r = Route::from_config(&route_config("svc", "/svc", true, false, &["h:1", "h:2", "h:3", "h:4"]));
    r.set_server_health(2, false);
    r.rr_counter = 17;
    let mut seen: Vec<u16> = (0..3).map(|_| r.next_server().unwrap().1).collect();
    seen.sort();
    assert_eq!(seen, vec![1, 2, 4]);
}

#[test]
fn round_robin_hands_out_each_healthy_server_once_per_cycle() {
    let mut r = Route::from_config(&route_config("svc", "/svc", true, false, &["h:1", "h:2", "h:3", "h:4", "h:5"]));
    r.set_server_health(0, false);
    r.set_server_health(3, false);
    for start in [0usize, 1, 2, 100, 1001] {
        r.rr_counter = start;
        let mut ports: Vec<u16> = (0..3).map(|_| r.next_server().unwrap().1).collect();
        ports.sort();
        assert_eq!(ports, vec![2, 3, 5], "start {}", start);
    }
}

#[test]
fn probe_targets_are_servers_of_checked_routes() {
    let cfg = GatewayConfig {
        gateway: GatewaySettings { listen: "0.0.0.0:80".to_string() },
        routes: vec![
            route_config("a", "/a", true, true, &["h:1", "h:2"]),
            route_config("b", "/b", true, false, &["h:3"]),
            route_config("c", "/c", true, true, &[]),
            route_config("d", "/d", true, true, &["h:4"]),
        ],
    };
    let routes = routes_from_config(&cfg);
    assert_eq!(probe_targets(&routes), vec![(0, 0), (0, 1), (3, 0)]);
    assert_eq!(probe_targets(&Vec::new()), Vec::<(usize, usize)>::new());
}
