use servw::config::ConfigError;
use servw::lbs::lc::LeastConn;
use servw::lbs::random::Random;
use servw::lbs::rr::RoundRobin;
use servw::lbs::{make_balancer, Balancer, LoadBalancer};
use servw::server_handler::{ProxyError, ServerHandler};

#[test]
fn test_empty_servers() {
    let mut lb = RoundRobin::new(vec![]);
    assert_eq!(lb.select_server(), None);
}

#[test]
fn test_single_server() {
    let mut lb = RoundRobin::new(vec!["server1".to_string()]);
    assert_eq!(lb.select_server(), Some("server1".to_string()));
    assert_eq!(lb.select_server(), Some("server1".to_string()));
}

#[test]
fn test_round_robin_order() {
    let servers = vec![
        "server1".to_string(),
        "server2".to_string(),
        "server3".to_string(),
    ];
    let mut lb = RoundRobin::new(servers);

    assert_eq!(lb.select_server(), Some("server1".to_string()));
    assert_eq!(lb.select_server(), Some("server2".to_string()));
    assert_eq!(lb.select_server(), Some("server3".to_string()));
    // Should wrap around to beginning
    assert_eq!(lb.select_server(), Some("server1".to_string()));
}

#[test]
fn test_multiple_cycles() {
    let servers = vec!["server1".to_string(), "server2".to_string()];
    let mut lb = RoundRobin::new(servers);

    // First cycle
    assert_eq!(lb.select_server(), Some("server1".to_string()));
    assert_eq!(lb.select_server(), Some("server2".to_string()));

    // Second cycle
    assert_eq!(lb.select_server(), Some("server1".to_string()));
    assert_eq!(lb.select_server(), Some("server2".to_string()));
}

#[test]
fn test_empty_servers_least_conn() {
    let mut lb = LeastConn::new(vec![]);
    assert_eq!(lb.select_server(), None);
}

#[test]
fn test_empty_servers_random() {
    let mut lb = Random::new(vec![]);
    assert_eq!(lb.select_server(), None);
}

#[test]
fn test_least_conn_two_servers() {
    let mut lb = LeastConn::new(vec!["a".to_string(), "b".to_string()]);
    assert_eq!(lb.select_server(), Some("a".to_string()));
    assert_eq!(lb.count_at(0), 1);
    assert_eq!(lb.count_at(1), 0);
    assert_eq!(lb.select_server(), Some("b".to_string()));
    assert_eq!(lb.count_at(0), 1);
    assert_eq!(lb.count_at(1), 1);
    lb.request_complete("a".to_string());
    assert_eq!(lb.select_server(), Some("a".to_string()));
}

#[test]
fn test_least_conn_accounting_sum() {
    let mut lb = LeastConn::new(vec!["a".to_string(), "b".to_string(), "c".to_string()]);
    let s1 = lb.select_server().unwrap();
    let _s2 = lb.select_server().unwrap();
    let _s3 = lb.select_server().unwrap();
    // three outstanding requests: the counters sum to three
    assert_eq!(lb.count_at(0) + lb.count_at(1) + lb.count_at(2), 3);
    lb.request_complete(s1);
    assert_eq!(lb.count_at(0) + lb.count_at(1) + lb.count_at(2), 2);
}

#[test]
fn test_least_conn_complete_is_noop_at_zero() {
    let mut lb = LeastConn::new(vec!["a".to_string(), "b".to_string()]);
    // completing a request that never completed I/O must not underflow
    lb.request_complete("a".to_string());
    assert_eq!(lb.count_at(0), 0);
    // an unknown address changes nothing either
    lb.request_complete("nowhere".to_string());
    assert_eq!(lb.count_at(0), 0);
    assert_eq!(lb.count_at(1), 0);
}

#[test]
fn test_random_selects_member() {
    let servers = vec!["a".to_string(), "b".to_string(), "c".to_string()];
    let mut lb = Random::new(servers.clone());
    for _ in 0..50 {
        let got = lb.select_server().unwrap();
        assert!(servers.contains(&got));
    }
}

#[test]
fn test_connect_failure_releases_slot() {
    let lb = LeastConn::new(vec!["a".to_string(), "b".to_string()]);
    let mut handler = ServerHandler::new(lb);
    let server = handler.select_upstream().unwrap();
    assert_eq!(server, "a".to_string());
    assert_eq!(handler.lb.count_at(0), 1);
    // the connect attempt failed: the core reports it and the counters are
    // back where they were before the selection
    let err = handler.connect_failed(server);
    assert_eq!(err, ProxyError::UpstreamConnectError);
    assert_eq!(handler.lb.count_at(0), 0);
    assert_eq!(handler.lb.count_at(1), 0);
}

#[test]
fn test_no_upstream_available() {
    let lb = RoundRobin::new(vec![]);
    let mut handler = ServerHandler::new(lb);
    assert_eq!(
        handler.select_upstream(),
        Err(ProxyError::NoUpstreamAvailable)
    );
}

#[test]
fn test_make_balancer_tokens() {
    let servers = vec!["a".to_string()];
    assert!(matches!(
        make_balancer("none", servers.clone()),
        Ok(Balancer::Random(_))
    ));
    assert!(matches!(
        make_balancer("roundrobin", servers.clone()),
        Ok(Balancer::RoundRobin(_))
    ));
    assert!(matches!(
        make_balancer("leastconn", servers.clone()),
        Ok(Balancer::LeastConn(_))
    ));
    assert_eq!(
        make_balancer("source", servers.clone()).err(),
        Some(ConfigError::InvalidAlgorithm)
    );
    assert_eq!(
        make_balancer("off", servers.clone()).err(),
        Some(ConfigError::InvalidAlgorithm)
    );
    assert_eq!(
        make_balancer("bogus", servers).err(),
        Some(ConfigError::InvalidAlgorithm)
    );
}

#[test]
fn test_balancer_enum_round_robin() {
    let mut b = make_balancer("roundrobin", vec!["x".to_string(), "y".to_string()]).unwrap();
    assert_eq!(b.select_server(), Some("x".to_string()));
    assert_eq!(b.select_server(), Some("y".to_string()));
    assert_eq!(b.select_server(), Some("x".to_string()));
}
