use mc_proxy::configuration::{host_with_default_port, HealthCheck, DEFAULT_PORT};
use mc_proxy::health_check::{HealthDecision, HealthReport, HealthTracker};
use mc_proxy::proxy::{logs_server_down, plan_connection, ConnectionPlan};
use mc_proxy::proxy_protocol::{
    append_pp_v2_ipv4, append_pp_v2_ipv6, append_proxy_protocol_v2, CommandV2, Ipv4Endpoint,
    Ipv6Endpoint, ProxyEndpoint, ProxyProtocolError,
};
use std::time::Duration;

const SIG: [u8; 12] = [0x0D, 0x0A, 0x0D, 0x0A, 0x00, 0x0D, 0x0A, 0x51, 0x55, 0x49, 0x54, 0x0A];

#[test]
fn pp_v2_ipv4_header() {
    let mut data = vec![0xaa];
    let src = Ipv4Endpoint { ip: [192, 168, 1, 10], port: 50000 };
    let dest = Ipv4Endpoint { ip: [10, 0, 0, 1], port: 25565 };
    append_pp_v2_ipv4(&mut data, src, dest, CommandV2::Proxy);
    let mut expected = vec![0xaa];
    expected.extend_from_slice(&SIG);
    expected.extend_from_slice(&[0x21, 0x11, 0x00, 0x0c]);
    expected.extend_from_slice(&[192, 168, 1, 10, 10, 0, 0, 1]);
    expected.extend_from_slice(&[0xc3, 0x50, 0x63, 0xdd]);
    assert_eq!(data, expected);
    assert_eq!(data.len() - 1, 16 + 12);
}

#[test]
fn pp_v2_ipv6_header() {
    let mut data = Vec::new();
    let mut a = [0u8; 16];
    a[15] = 1;
    let mut b = [0u8; 16];
    b[0] = 0xfe;
    b[1] = 0x80;
    let src = Ipv6Endpoint { ip: a, port: 1 };
    let dest = Ipv6Endpoint { ip: b, port: 0x1234 };
    append_pp_v2_ipv6(&mut data, src, dest, CommandV2::Local);
    assert_eq!(&data[..12], &SIG);
    assert_eq!(&data[12..16], &[0x20, 0x21, 0x00, 0x24]);
    assert_eq!(&data[16..32], &a);
    assert_eq!(&data[32..48], &b);
    assert_eq!(&data[48..], &[0x00, 0x01, 0x12, 0x34]);
    assert_eq!(data.len(), 16 + 36);
}

#[test]
fn pp_v2_by_family() {
    let v4 = ProxyEndpoint::V4(Ipv4Endpoint { ip: [1, 2, 3, 4], port: 5 });
    let v6 = ProxyEndpoint::V6(Ipv6Endpoint { ip: [0; 16], port: 6 });
    let mut data = Vec::new();
    assert_eq!(append_proxy_protocol_v2(&mut data, v4, v4, CommandV2::Proxy), Ok(()));
    assert_eq!(data.len(), 28);
    let mut data = Vec::new();
    assert_eq!(append_proxy_protocol_v2(&mut data, v6, v6, CommandV2::Proxy), Ok(()));
    assert_eq!(data.len(), 52);
    let mut data = vec![7];
    assert_eq!(
        append_proxy_protocol_v2(&mut data, v4, v6, CommandV2::Proxy),
        Err(ProxyProtocolError::MixedAddressFamilies)
    );
    assert_eq!(data, vec![7]);
}

#[test]
fn health_tracker_logs_changes_only() {
    let mut t = HealthTracker::new();
    assert_eq!(t.observe(false), HealthDecision { log: Some(HealthReport::Down), publish: false });
    assert_eq!(t.observe(false), HealthDecision { log: None, publish: false });
    assert_eq!(t.observe(true), HealthDecision { log: Some(HealthReport::Up), publish: true });
    assert_eq!(t.observe(true), HealthDecision { log: None, publish: true });
    assert_eq!(t.observe(false), HealthDecision { log: Some(HealthReport::Down), publish: false });
    let mut t = HealthTracker::new();
    assert_eq!(t.observe(true), HealthDecision { log: Some(HealthReport::Up), publish: true });
}

#[test]
fn connection_plans() {
    assert_eq!(plan_connection(true, true, true), ConnectionPlan::Forward { proxy_protocol: true });
    assert_eq!(plan_connection(true, false, false), ConnectionPlan::Forward { proxy_protocol: false });
    assert_eq!(plan_connection(false, true, true), ConnectionPlan::ServeSorry);
    assert_eq!(plan_connection(false, true, false), ConnectionPlan::Close);
    assert!(logs_server_down(false, true));
    assert!(!logs_server_down(false, false));
    assert!(!logs_server_down(true, true));
}

#[test]
fn health_check_defaults() {
    let h = HealthCheck::default();
    assert!(!h.enabled);
    assert_eq!(h.interval_sec, 5);
    assert_eq!(h.timeout_sec, 2);
    assert_eq!(h.max_failures, 3);
    assert_eq!(h.interval(), Duration::from_secs(5));
    assert_eq!(h.timeout(), Duration::from_secs(2));
}

#[test]
fn default_port_is_appended() {
    assert_eq!(host_with_default_port("mc.example.org"), "mc.example.org:25565");
    assert_eq!(DEFAULT_PORT, 25565);
}
