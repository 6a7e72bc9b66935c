use wavekat_sip::account::{SipAccount, TlsPolicy, Transport};
use wavekat_sip::net::{IpAddr, Ipv4Addr, SocketAddr};
use wavekat_sip::resolve::{
    location_plan, mix_seed, order_candidates, srv_target, LocationPlan, LookupResult, Resolution,
    ResolveAction, SrvRecord,
};

fn rec(priority: u16, weight: u16, port: u16, target: &str) -> SrvRecord {
    SrvRecord {
        priority,
        weight,
        port,
        target: target.to_string(),
    }
}

fn account(server: Option<&str>, port: Option<u16>, transport: Transport) -> SipAccount {
    SipAccount {
        display_name: "Test".to_string(),
        username: "1001".to_string(),
        password: "secret".to_string(),
        domain: "sip.example.com".to_string(),
        auth_username: None,
        server: server.map(str::to_string),
        port,
        transport,
        tls_policy: TlsPolicy::default(),
    }
}

// --- order_candidates: pure RFC 2782 ordering ---

#[test]
fn orders_by_ascending_priority_regardless_of_seed() {
    let records = vec![
        rec(20, 0, 5060, "backup.example.com"),
        rec(10, 0, 5060, "primary.example.com"),
        rec(30, 0, 5060, "last.example.com"),
    ];
    for seed in 0..32 {
        let ordered = order_candidates(&records, seed);
        let priorities: Vec<u16> = ordered.iter().map(|r| r.priority).collect();
        assert_eq!(priorities, vec![10, 20, 30], "seed {seed}");
    }
}

#[test]
fn weighted_selection_prefers_heavier_records() {
    let records = vec![
        rec(10, 90, 5060, "heavy.example.com"),
        rec(10, 10, 5060, "light.example.com"),
    ];
    let mut heavy_first = 0;
    let trials = 400;
    for seed in 0..trials {
        let ordered = order_candidates(&records, seed);
        if ordered[0].target == "heavy.example.com" {
            heavy_first += 1;
        }
    }
    // Expected ~90%. Allow generous slack; the seed range is fixed
    // so this is deterministic, not flaky.
    assert!(
        heavy_first > trials * 7 / 10,
        "heavy record picked first only {heavy_first}/{trials} times"
    );
}

#[test]
fn all_zero_weights_return_every_record() {
    let records = vec![
        rec(10, 0, 5060, "a.example.com"),
        rec(10, 0, 5061, "b.example.com"),
        rec(10, 0, 5062, "c.example.com"),
    ];
    let ordered = order_candidates(&records, 7);
    assert_eq!(ordered.len(), 3);
    let mut targets: Vec<&str> = ordered.iter().map(|r| r.target.as_str()).collect();
    targets.sort_unstable();
    assert_eq!(
        targets,
        vec!["a.example.com", "b.example.com", "c.example.com"]
    );
}

#[test]
fn mixed_zero_and_nonzero_weights_keep_all_records() {
    let records = vec![
        rec(10, 0, 5060, "zero.example.com"),
        rec(10, 100, 5060, "hundred.example.com"),
        rec(10, 0, 5060, "zero2.example.com"),
    ];
    for seed in 0..16 {
        let ordered = order_candidates(&records, seed);
        assert_eq!(ordered.len(), 3, "seed {seed}");
    }
    // Zero-weight records can still come first occasionally (roll
    // of 0); just assert the heavy one usually leads.
    let lead = (0..100)
        .filter(|&seed| order_candidates(&records, seed)[0].target == "hundred.example.com")
        .count();
    assert!(lead > 50, "weight-100 led only {lead}/100 times");
}

#[test]
fn single_record_passes_through() {
    let records = vec![rec(5, 20, 5070, "only.example.com")];
    assert_eq!(order_candidates(&records, 0), records);
}

#[test]
fn empty_records_yield_empty() {
    assert!(order_candidates(&[], 42).is_empty());
}

#[test]
fn same_seed_is_deterministic() {
    let records = vec![
        rec(10, 30, 5060, "a.example.com"),
        rec(10, 30, 5060, "b.example.com"),
        rec(10, 30, 5060, "c.example.com"),
    ];
    assert_eq!(
        order_candidates(&records, 1234),
        order_candidates(&records, 1234)
    );
}

// --- location_plan: skip-SRV decision rules ---

#[test]
fn explicit_port_skips_srv() {
    let acct = account(Some("pbx.example.com"), Some(5080), Transport::Udp);
    assert_eq!(
        location_plan(&acct),
        LocationPlan::Direct {
            host: "pbx.example.com".to_string(),
            port: 5080,
        }
    );
}

#[test]
fn ipv4_literal_skips_srv() {
    let acct = account(Some("192.0.2.10"), None, Transport::Udp);
    assert_eq!(
        location_plan(&acct),
        LocationPlan::Direct {
            host: "192.0.2.10".to_string(),
            port: 5060,
        }
    );
}

#[test]
fn ipv6_literal_skips_srv() {
    let acct = account(Some("2001:db8::1"), None, Transport::Udp);
    assert_eq!(
        location_plan(&acct),
        LocationPlan::Direct {
            host: "2001:db8::1".to_string(),
            port: 5060,
        }
    );
}

#[test]
fn bare_domain_uses_udp_srv_label() {
    let acct = account(None, None, Transport::Udp);
    assert_eq!(
        location_plan(&acct),
        LocationPlan::Srv {
            name: "_sip._udp.sip.example.com".to_string(),
            host: "sip.example.com".to_string(),
            port: 5060,
        }
    );
}

#[test]
fn tcp_transport_uses_tcp_srv_label() {
    let acct = account(Some("pbx.example.com"), None, Transport::Tcp);
    assert_eq!(
        location_plan(&acct),
        LocationPlan::Srv {
            name: "_sip._tcp.pbx.example.com".to_string(),
            host: "pbx.example.com".to_string(),
            port: 5060,
        }
    );
}

#[test]
fn tls_transport_uses_the_sips_label() {
    let acct = account(None, None, Transport::Tls);
    assert_eq!(
        location_plan(&acct),
        LocationPlan::Srv {
            name: "_sips._tcp.sip.example.com".to_string(),
            host: "sip.example.com".to_string(),
            port: 5061,
        }
    );
}

// --- the search: SRV resolution and fallback ---

fn v4(a: u8, b: u8, c: u8, d: u8, port: u16) -> SocketAddr {
    SocketAddr::new(IpAddr::V4(Ipv4Addr(a, b, c, d)), port)
}

struct MockDns {
    srv: Result<Vec<SrvRecord>, String>,
    hosts: Vec<(String, u16, SocketAddr)>,
}

impl MockDns {
    fn new(srv: Result<Vec<SrvRecord>, String>) -> Self {
        Self { srv, hosts: Vec::new() }
    }

    fn with_host(mut self, host: &str, port: u16, addr: SocketAddr) -> Self {
        self.hosts.push((host.to_string(), port, addr));
        self
    }

    /// Runs a search to its end: the address and the queries that were made.
    fn resolve(&self, acct: &SipAccount, seed: u64) -> (Option<SocketAddr>, Vec<String>) {
        let mut calls = Vec::new();
        let (mut search, mut action) = Resolution::start(location_plan(acct));
        loop {
            action = match action {
                ResolveAction::QuerySrv { name } => {
                    calls.push(format!("srv:{name}"));
                    search.on_srv(&self.srv.clone().unwrap_or_default(), seed)
                }
                ResolveAction::Lookup { host, port } => {
                    calls.push(format!("a:{host}:{port}"));
                    let found = self.hosts.iter().find(|h| h.0 == host && h.1 == port);
                    search.on_lookup(LookupResult::Answered(found.map(|h| h.2)))
                }
                ResolveAction::Found(addr) => return (addr, calls),
                ResolveAction::Fail => panic!("the search failed"),
            }
        }
    }
}

#[test]
fn direct_ip_literal_makes_no_dns_calls() {
    let dns = MockDns::new(Ok(vec![]));
    let acct = account(Some("192.0.2.10"), None, Transport::Udp);
    let (addr, calls) = dns.resolve(&acct, 0);
    assert_eq!(addr, Some(v4(192, 0, 2, 10, 5060)));
    assert!(calls.is_empty(), "IP literal must not touch DNS");
}

#[test]
fn direct_hostname_resolves_at_configured_port() {
    let dns = MockDns::new(Ok(vec![rec(10, 0, 9999, "ignored.example.com")])).with_host(
        "pbx.example.com",
        5080,
        v4(198, 51, 100, 1, 5080),
    );
    let acct = account(Some("pbx.example.com"), Some(5080), Transport::Udp);
    let (addr, calls) = dns.resolve(&acct, 0);
    assert_eq!(addr, Some(v4(198, 51, 100, 1, 5080)));
    assert_eq!(calls, vec!["a:pbx.example.com:5080"], "explicit port must skip SRV entirely");
}

#[test]
fn empty_srv_falls_back_to_a_lookup_at_default_port() {
    let dns =
        MockDns::new(Ok(vec![])).with_host("sip.example.com", 5060, v4(203, 0, 113, 5, 5060));
    let acct = account(None, None, Transport::Udp);
    let (addr, calls) = dns.resolve(&acct, 0);
    assert_eq!(addr, Some(v4(203, 0, 113, 5, 5060)));
    assert_eq!(calls, vec!["srv:_sip._udp.sip.example.com", "a:sip.example.com:5060"]);
}

#[test]
fn srv_query_error_falls_back_to_a_lookup() {
    let dns = MockDns::new(Err("SERVFAIL".to_string())).with_host(
        "sip.example.com",
        5060,
        v4(203, 0, 113, 5, 5060),
    );
    let acct = account(None, None, Transport::Udp);
    assert_eq!(dns.resolve(&acct, 0).0, Some(v4(203, 0, 113, 5, 5060)));
}

#[test]
fn srv_records_resolve_target_with_srv_port() {
    let dns = MockDns::new(Ok(vec![rec(10, 0, 5070, "sipserver.example.com")])).with_host(
        "sipserver.example.com",
        5070,
        v4(198, 51, 100, 9, 5070),
    );
    let acct = account(None, None, Transport::Udp);
    let (addr, calls) = dns.resolve(&acct, 0);
    assert_eq!(addr, Some(v4(198, 51, 100, 9, 5070)));
    assert_eq!(
        calls,
        vec!["srv:_sip._udp.sip.example.com", "a:sipserver.example.com:5070"],
        "must use the SRV port, not 5060, and not fall back"
    );
}

#[test]
fn failed_candidate_falls_through_to_next() {
    let dns = MockDns::new(Ok(vec![
        rec(10, 0, 5070, "dead.example.com"),
        rec(20, 0, 5071, "alive.example.com"),
    ]))
    .with_host("alive.example.com", 5071, v4(198, 51, 100, 2, 5071));
    let acct = account(None, None, Transport::Udp);
    assert_eq!(dns.resolve(&acct, 0).0, Some(v4(198, 51, 100, 2, 5071)));
}

#[test]
fn dot_target_is_skipped_without_fallback() {
    let dns = MockDns::new(Ok(vec![rec(10, 0, 5060, ".")])).with_host(
        "sip.example.com",
        5060,
        v4(203, 0, 113, 5, 5060),
    );
    let acct = account(None, None, Transport::Udp);
    let (addr, calls) = dns.resolve(&acct, 0);
    assert_eq!(addr, None);
    assert_eq!(calls, vec!["srv:_sip._udp.sip.example.com"]);
}

#[test]
fn unresolvable_srv_targets_do_not_fall_back() {
    let dns = MockDns::new(Ok(vec![rec(10, 0, 5070, "ghost.example.com")])).with_host(
        "sip.example.com",
        5060,
        v4(203, 0, 113, 5, 5060),
    );
    let acct = account(None, None, Transport::Udp);
    assert_eq!(
        dns.resolve(&acct, 0).0,
        None,
        "SRV records rule out the address lookup of the domain"
    );
}

#[test]
fn a_failed_last_lookup_fails_the_search() {
    let acct = account(Some("pbx.example.com"), Some(5080), Transport::Udp);
    let (mut search, _) = Resolution::start(location_plan(&acct));
    assert_eq!(search.on_lookup(LookupResult::Failed), ResolveAction::Fail);
}

#[test]
fn srv_targets_lose_their_trailing_dot() {
    assert_eq!(srv_target("sip.example.com."), "sip.example.com");
    assert_eq!(srv_target("."), "");
}

#[test]
fn seeds_mix_random_keys_with_the_time() {
    assert_eq!(mix_seed(0b1100, 0b1010), 0b0110);
    assert_eq!(mix_seed(u64::MAX, 0), u64::MAX);
}

#[test]
fn less_preferred_records_do_not_change_the_order_of_the_others() {
    let records = vec![
        rec(20, 5, 1, "a"), rec(10, 0, 2, "b"), rec(10, 9, 3, "c"), rec(30, 1, 4, "d"),
        rec(10, 4, 5, "e"), rec(20, 5, 6, "f"), rec(10, 0, 7, "g"),
    ];
    for seed in 0..64 {
        let all = order_candidates(&records, seed);
        for p in [0u16, 10, 20, 30] {
            let low: Vec<SrvRecord> =
                records.iter().filter(|r| r.priority <= p).cloned().collect();
            assert_eq!(order_candidates(&low, seed), all[..low.len()]);
        }
    }
}
