use toolbox_core::discovery::{
    expand_hosts, host_live_from_outcomes, live_hosts_from_outcomes, liveness_step, parse_cidr4,
    Cidr4, LivenessStep,
};
use toolbox_core::scanner::{
    collect_open_ports, effective_max_connections, scan_host_from_outcomes, PolicyError,
    ScanPolicy,
};

fn ip(a: u32, b: u32, c: u32, d: u32) -> u32 {
    (a << 24) | (b << 16) | (c << 8) | d
}

#[test]
fn cidr_parse_and_mask() {
    let c = parse_cidr4("192.168.1.0/30").unwrap();
    assert_eq!(c.base, ip(192, 168, 1, 0));
    assert_eq!(c.prefix, 30);
    // host bits are cleared
    let c2 = parse_cidr4("192.168.1.5/30").unwrap();
    assert_eq!(c2.base, ip(192, 168, 1, 4));
    assert_eq!(c2.prefix, 30);
}

#[test]
fn cidr_rejects_bad_notation() {
    assert!(parse_cidr4("192.168.1.0").is_err());
    assert!(parse_cidr4("192.168.1/24").is_err());
    assert!(parse_cidr4("192.168.1.0/33").is_err());
    assert!(parse_cidr4("192.168.1.256/24").is_err());
    assert!(parse_cidr4("192.168.01.0/24").is_err());
    assert!(parse_cidr4("a.b.c.d/24").is_err());
    assert!(parse_cidr4("192.168.1.0/").is_err());
}

#[test]
fn expand_excludes_network_and_broadcast() {
    let c = parse_cidr4("192.168.1.0/30").unwrap();
    let hosts = expand_hosts(c);
    assert_eq!(hosts, vec![ip(192, 168, 1, 1), ip(192, 168, 1, 2)]);
}

#[test]
fn expand_31_and_32_keep_every_address() {
    let c31 = parse_cidr4("10.0.0.0/31").unwrap();
    assert_eq!(expand_hosts(c31), vec![ip(10, 0, 0, 0), ip(10, 0, 0, 1)]);
    let c32 = parse_cidr4("10.0.0.7/32").unwrap();
    assert_eq!(expand_hosts(c32), vec![ip(10, 0, 0, 7)]);
}

#[test]
fn expand_24_has_254_ascending_hosts() {
    let c = parse_cidr4("10.1.2.0/24").unwrap();
    let hosts = expand_hosts(c);
    assert_eq!(hosts.len(), 254);
    assert_eq!(hosts[0], ip(10, 1, 2, 1));
    assert_eq!(hosts[253], ip(10, 1, 2, 254));
    for w in hosts.windows(2) {
        assert!(w[0] < w[1]);
    }
}

#[test]
fn expand_aligned_wide_block() {
    let c = Cidr4 { base: 0, prefix: 8 };
    let hosts = expand_hosts(c);
    assert_eq!(hosts.len(), (1usize << 24) - 2);
    assert_eq!(hosts[0], 1);
}

#[test]
fn live_iff_some_port_accepts() {
    assert!(host_live_from_outcomes(&vec![false, true, false]));
    assert!(host_live_from_outcomes(&vec![true]));
    assert!(!host_live_from_outcomes(&vec![false, false]));
    assert!(!host_live_from_outcomes(&vec![]));
}

#[test]
fn liveness_step_decisions() {
    assert_eq!(liveness_step(true, 5), LivenessStep::Live);
    assert_eq!(liveness_step(false, 5), LivenessStep::TryNextPort);
    assert_eq!(liveness_step(false, 0), LivenessStep::NotLive);
}

#[test]
fn open_ports_sorted_whatever_the_completion_order() {
    // a three-port scan where only port 2 listens, in every completion order
    let orders: Vec<Vec<(u16, bool)>> = vec![
        vec![(1, false), (2, true), (3, false)],
        vec![(1, false), (3, false), (2, true)],
        vec![(2, true), (1, false), (3, false)],
        vec![(2, true), (3, false), (1, false)],
        vec![(3, false), (1, false), (2, true)],
        vec![(3, false), (2, true), (1, false)],
    ];
    for results in orders {
        assert_eq!(collect_open_ports(&results), vec![2]);
    }
}

#[test]
fn open_ports_dedup_and_sort() {
    let results = vec![(443, true), (22, true), (443, true), (80, false)];
    assert_eq!(collect_open_ports(&results), vec![22, 443]);
    assert_eq!(collect_open_ports(&vec![]), Vec::<u16>::new());
}

#[test]
fn max_connections_defaults_to_product() {
    assert_eq!(effective_max_connections(256, 4, None), 1024);
    assert_eq!(effective_max_connections(256, 0, None), 256);
    assert_eq!(effective_max_connections(0, 4, None), 1);
    assert_eq!(effective_max_connections(256, 4, Some(10)), 10);
    assert_eq!(effective_max_connections(256, 4, Some(0)), 1);
    assert_eq!(
        effective_max_connections(usize::MAX, 2, None),
        usize::MAX
    );
}

#[test]
fn policy_validation_fails_fast() {
    let good = ScanPolicy {
        timeout_ms: 500,
        per_host_concurrency: 256,
        dns_retries: 0,
        dns_retry_delay_ms: 200,
        qps: 0,
        retries: 2,
        retry_delay_ms: 50,
        max_connections: None,
    };
    assert!(good.validate().is_ok());
    let zero = ScanPolicy {
        per_host_concurrency: 0,
        ..good.clone()
    };
    assert_eq!(zero.validate(), Err(PolicyError::ZeroConcurrency));
    let zero_max = ScanPolicy {
        max_connections: Some(0),
        ..good.clone()
    };
    assert_eq!(zero_max.validate(), Err(PolicyError::ZeroConcurrency));
    let huge_delay = ScanPolicy {
        retry_delay_ms: u64::MAX / 2,
        ..good
    };
    assert_eq!(huge_delay.validate(), Err(PolicyError::RetryDelayTooLarge));
}

#[test]
fn scan_host_fan_in_with_retries() {
    // retries = 1: two attempts per port; port 2 opens on its second attempt
    let ports: Vec<u16> = vec![3, 2, 1];
    let outcomes: Vec<Vec<bool>> = vec![
        vec![false, false],
        vec![false, true],
        vec![false, false],
    ];
    assert_eq!(scan_host_from_outcomes(&ports, &outcomes, 1), vec![2]);
    // no port opens
    let closed: Vec<Vec<bool>> = vec![vec![false; 2], vec![false; 2], vec![false; 2]];
    assert_eq!(
        scan_host_from_outcomes(&ports, &closed, 1),
        Vec::<u16>::new()
    );
}

#[test]
fn live_hosts_keep_completion_order() {
    let ips: Vec<u32> = vec![30, 10, 20];
    let outcomes: Vec<Vec<bool>> = vec![vec![true], vec![false], vec![false, true]];
    assert_eq!(live_hosts_from_outcomes(&ips, &outcomes), vec![30, 20]);
}
