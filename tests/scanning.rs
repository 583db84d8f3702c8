use rend::cdn::{
    check_known_cdn_ranges, classify, classify_with_evidence, filter_cdn_ips, is_cdn_ip,
    Classification, DEFAULT_PORT_CEILING,
};
use rend::portscan::{
    banner_of, check_activemq, check_jdwp, check_reply, check_rmi, first_probe, next_probe,
    probe_bytes, reply_limit, shard_ranges, skip_port, BannerKind, FindingLog, PortFinding, Probe, ScanOutcome,
    ScanState,
};

fn provider(c: Classification) -> Option<String> {
    match c {
        Classification::Cdn(reason) => Some(reason),
        Classification::Clear => None,
    }
}

#[test]
fn provider_ranges_classify_as_cdn() {
    assert_eq!(provider(classify("104.16.0.1")), Some("Cloudflare".to_string()));
    assert_eq!(provider(classify("13.32.10.20")), Some("AWS".to_string()));
    assert_eq!(provider(classify("2606:4700::1111")), Some("Cloudflare".to_string()));
    assert_eq!(provider(classify("8.8.8.8")), None);
    assert_eq!(provider(classify("not an ip")), None);
    assert_eq!(provider(classify("")), None);
}

#[test]
fn classification_is_repeatable() {
    for _ in 0..3 {
        assert_eq!(provider(classify("198.41.200.7")), Some("Cloudflare".to_string()));
        assert_eq!(provider(classify("9.9.9.9")), None);
    }
}

#[test]
fn known_range_reason_names_the_provider() {
    assert_eq!(check_known_cdn_ranges("54.230.1.1"), Some((true, "is AWS".to_string())));
    assert_eq!(check_known_cdn_ranges("10.0.0.1"), None);
    assert_eq!(is_cdn_ip("172.64.1.1"), (true, "is Cloudflare".to_string()));
    assert_eq!(is_cdn_ip("10.0.0.1"), (false, String::new()));
}

#[test]
fn evidence_ceiling_marks_cdn() {
    assert_eq!(provider(classify_with_evidence("8.8.8.8", 101, 0, DEFAULT_PORT_CEILING)), Some("excessive open ports".to_string()));
    assert_eq!(provider(classify_with_evidence("8.8.8.8", 0, 150, 100)), Some("excessive open ports".to_string()));
    assert_eq!(provider(classify_with_evidence("8.8.8.8", 100, 100, 100)), None);
    assert_eq!(provider(classify_with_evidence("104.16.0.1", 0, 0, 100)), Some("Cloudflare".to_string()));
}

#[test]
fn filter_keeps_targets_outside_provider_ranges() {
    let ips = vec!["104.16.0.1:443".to_string(), "8.8.8.8:53".to_string(), "1.1.1.1".to_string()];
    assert_eq!(filter_cdn_ips(&ips), vec!["8.8.8.8:53".to_string(), "1.1.1.1".to_string()]);
    let v6 = vec!["2606:4700::1".to_string(), "2001:db8::1".to_string(), "13.32.0.9:8443".to_string()];
    assert_eq!(filter_cdn_ips(&v6), vec!["2001:db8::1".to_string()]);
}

#[test]
fn host_over_ceiling_is_excluded() {
    let mut st = ScanState::new(100);
    for port in 1..=150u16 {
        if !st.should_stop() || port > 0 {
            st.record_open(port);
        }
    }
    assert!(st.should_stop());
    assert!(matches!(st.finish(), ScanOutcome::ExcludedAsCdn));
}

#[test]
fn host_under_ceiling_keeps_its_ports() {
    let mut st = ScanState::new(100);
    for port in [80u16, 443, 80, 8080] {
        st.record_open(port);
    }
    assert!(!st.should_stop());
    match st.finish() {
        ScanOutcome::Completed(ports) => assert_eq!(ports, vec![80, 443, 8080]),
        ScanOutcome::ExcludedAsCdn => panic!("host was excluded"),
    }
}

#[test]
fn ceiling_is_crossed_only_past_it() {
    let mut st = ScanState::new(3);
    for port in 1..=3u16 {
        st.record_open(port);
    }
    assert!(!st.should_stop());
    st.record_open(3);
    assert!(!st.should_stop());
    st.record_open(4);
    assert!(st.should_stop());
    st.record_open(5);
    assert!(matches!(st.finish(), ScanOutcome::ExcludedAsCdn));
}

#[test]
fn jdwp_echo_is_recorded_once() {
    let reply = b"JDWP-Handshake";
    assert_eq!(first_probe(5005), Some(Probe::Jdwp));
    assert_eq!(probe_bytes(Probe::Jdwp), reply.to_vec());
    assert_eq!(reply_limit(Probe::Jdwp), 14);
    assert!(check_jdwp(reply));
    assert!(check_reply(Probe::Jdwp, reply));
    assert_eq!(next_probe(Probe::Jdwp, check_reply(Probe::Jdwp, reply)), None);
    let mut log = FindingLog::new();
    let f = PortFinding { ip: "10.0.0.5".to_string(), port: 5005, banner_kind: banner_of(Probe::Jdwp) };
    assert!(log.record(f.clone()));
    assert!(!log.record(f));
    assert_eq!(log.len(), 1);
    let found = log.findings();
    assert_eq!(found[0].port, 5005);
    assert_eq!(found[0].banner_kind, BannerKind::Jdwp);
}

#[test]
fn jdwp_needs_the_exact_handshake() {
    assert!(!check_jdwp(b"JDWP-Handshak"));
    assert!(!check_jdwp(b"JDWP-Handshake!"));
    assert!(!check_jdwp(b"jdwp-handshake"));
}

#[test]
fn activemq_and_rmi_replies() {
    assert!(check_activemq(b"\x00\x00ActiveMQ\x01"));
    assert!(!check_activemq(b"activemq"));
    assert!(!check_activemq(b""));
    assert!(check_rmi(b"\x4eJRMI"));
    assert!(check_rmi(b"java.rmi.server"));
    assert!(!check_rmi(b"RMI"));
    assert_eq!(probe_bytes(Probe::Rmi), b"JRMI\x00\x02\x4b".to_vec());
    assert_eq!(probe_bytes(Probe::ActiveMq).len(), 19);
}

#[test]
fn probes_run_in_order_and_skip_known_ports() {
    assert!(skip_port(22));
    assert!(skip_port(6379));
    assert!(!skip_port(8080));
    assert_eq!(first_probe(3306), None);
    assert_eq!(next_probe(Probe::Jdwp, false), Some(Probe::ActiveMq));
    assert_eq!(next_probe(Probe::ActiveMq, false), Some(Probe::Rmi));
    assert_eq!(next_probe(Probe::Rmi, false), None);
    assert_eq!(next_probe(Probe::ActiveMq, true), None);
    assert_eq!(banner_of(Probe::Rmi), BannerKind::Rmi);
}

#[test]
fn port_range_splits_into_contiguous_shards() {
    assert_eq!(shard_ranges(1, 10, 4), vec![(1, 4), (5, 8), (9, 10)]);
    assert_eq!(shard_ranges(65530, 65535, 100), vec![(65530, 65535)]);
    assert_eq!(shard_ranges(7, 7, 1), vec![(7, 7)]);
}
