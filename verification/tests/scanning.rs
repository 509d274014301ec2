//! Probe classification, the adaptive controller, result assembly, and
//! service identification.

use portscan::adaptive::{
    classify_network, AdaptiveLearning, NetworkClass, PortScanResult, ScanLearningData,
    compute_telemetry,
};
use portscan::cli::ScanType;
use portscan::net::{is_private_ip, Address};
use portscan::probe::{
    classify_connect, classify_flag, classify_syn, classify_udp, effective_probe_timeout,
    fast_connect_timeout, RawTcpEvent, TcpConnectEvent, UdpEvent,
};
use portscan::results::{PortResult, PortStatus};
use portscan::scheduler::{build_host_result, check_fd_budget, scan_plan, Scanner};
use portscan::service::{
    candidate_probes, create_dns_query, create_tls_client_hello, get_service_name,
    identify_response, identify_service, ProbeKind,
};

fn v4(a: u8, b: u8, c: u8, d: u8) -> Address {
    Address::V4(
        ((a as u32) << 24) | ((b as u32) << 16) | ((c as u32) << 8) | (d as u32),
    )
}

#[test]
fn test_connect_classification() {
    assert_eq!(classify_connect(TcpConnectEvent::Connected), PortStatus::Open);
    assert_eq!(classify_connect(TcpConnectEvent::Refused), PortStatus::Closed);
    assert_eq!(classify_connect(TcpConnectEvent::TimedOut), PortStatus::Filtered);
    assert_eq!(classify_connect(TcpConnectEvent::OtherError), PortStatus::Error);
}

#[test]
fn test_raw_tcp_classification() {
    assert_eq!(classify_syn(RawTcpEvent::SynAck), PortStatus::Open);
    assert_eq!(classify_syn(RawTcpEvent::Rst), PortStatus::Closed);
    assert_eq!(classify_syn(RawTcpEvent::IcmpUnreachable(3)), PortStatus::Filtered);
    assert_eq!(classify_syn(RawTcpEvent::NoReply), PortStatus::Filtered);
    assert_eq!(classify_syn(RawTcpEvent::SendFailure), PortStatus::Error);
    // silence on a FIN/NULL/XMAS probe collapses open-or-filtered to open
    assert_eq!(classify_flag(RawTcpEvent::NoReply), PortStatus::Open);
    assert_eq!(classify_flag(RawTcpEvent::Rst), PortStatus::Closed);
    assert_eq!(classify_flag(RawTcpEvent::IcmpUnreachable(1)), PortStatus::Filtered);
}

#[test]
fn test_udp_classification() {
    assert_eq!(classify_udp(UdpEvent::Reply), PortStatus::Open);
    assert_eq!(classify_udp(UdpEvent::IcmpUnreachable(3)), PortStatus::Closed);
    assert_eq!(classify_udp(UdpEvent::IcmpUnreachable(1)), PortStatus::Filtered);
    assert_eq!(classify_udp(UdpEvent::NoReply), PortStatus::Filtered);
}

#[test]
fn test_connect_scan_scenario() {
    // a host that accepts on 22, drops on 23, refuses on 81
    let outcomes = vec![
        (81u16, classify_connect(TcpConnectEvent::Refused), Some(3u64)),
        (22u16, classify_connect(TcpConnectEvent::Connected), Some(5u64)),
        (23u16, classify_connect(TcpConnectEvent::TimedOut), None),
    ];
    let rows: Vec<PortResult> = outcomes
        .into_iter()
        .map(|(port, status, rt)| PortResult::new(port, status, rt))
        .collect();
    let host = build_host_result(
        "host".to_string(),
        v4(10, 0, 0, 1),
        ScanType::Connect,
        0,
        10,
        rows,
    );
    let got: Vec<(u16, PortStatus)> = host.ports.iter().map(|p| (p.port, p.status)).collect();
    assert_eq!(
        got,
        vec![
            (22, PortStatus::Open),
            (23, PortStatus::Filtered),
            (81, PortStatus::Closed)
        ]
    );
}

#[test]
fn test_fast_connect_timeout_floor() {
    assert!(is_private_ip(v4(127, 0, 0, 1)));
    assert!(is_private_ip(v4(192, 168, 1, 10)));
    assert!(!is_private_ip(v4(8, 8, 8, 8)));
    // the whole fe80::/10 and fc00::/7 ranges are local, as the
    // classifier sees them
    assert!(is_private_ip(Address::V6(0xfe81_0000_0000_0000_0000_0000_0000_0001)));
    assert!(is_private_ip(Address::V6(0xfd12_0000_0000_0000_0000_0000_0000_0001)));
    assert!(!is_private_ip(Address::V6(0x2001_0000_0000_0000_0000_0000_0000_0001)));
    assert_eq!(fast_connect_timeout(1000), 250);
    assert_eq!(fast_connect_timeout(100), 100);
    assert_eq!(effective_probe_timeout(ScanType::Connect, true, 1000), 250);
    assert_eq!(effective_probe_timeout(ScanType::Connect, false, 1000), 1000);
    assert_eq!(effective_probe_timeout(ScanType::Syn, true, 1000), 1000);
}

#[test]
fn test_network_classification() {
    assert_eq!(classify_network(v4(127, 0, 0, 1)), NetworkClass::Loopback);
    assert_eq!(classify_network(v4(169, 254, 1, 1)), NetworkClass::LinkLocal);
    assert_eq!(classify_network(v4(10, 1, 2, 3)), NetworkClass::Private);
    assert_eq!(classify_network(v4(172, 16, 0, 1)), NetworkClass::Private);
    assert_eq!(classify_network(v4(172, 32, 0, 1)), NetworkClass::Public);
    assert_eq!(classify_network(v4(192, 168, 0, 1)), NetworkClass::Private);
    assert_eq!(classify_network(v4(8, 8, 8, 8)), NetworkClass::Public);
    assert_eq!(classify_network(Address::V6(1)), NetworkClass::Loopback);
    assert_eq!(
        classify_network(Address::V6(0xfe80_0000_0000_0000_0000_0000_0000_0001)),
        NetworkClass::LinkLocal
    );
    assert_eq!(
        classify_network(Address::V6(0xfe81_0000_0000_0000_0000_0000_0000_0001)),
        NetworkClass::LinkLocal
    );
    assert_eq!(
        classify_network(Address::V6(0xfd00_0000_0000_0000_0000_0000_0000_0001)),
        NetworkClass::Private
    );
    assert_eq!(
        classify_network(Address::V6(0x2001_0000_0000_0000_0000_0000_0000_0001)),
        NetworkClass::Public
    );
}

fn quiet_private_telemetry() -> ScanLearningData {
    ScanLearningData {
        target: v4(192, 168, 1, 10),
        network_type: NetworkClass::Private,
        port_results: Vec::new(),
        scan_duration_ms: 100,
        avg_response_time_ms: 20,
        timeout_rate_permille: 0,
        parallelism_used: 50,
        rate_limit_used: 50,
    }
}

#[test]
fn test_adaptive_settles_on_quiet_private_hosts() {
    let mut learning = AdaptiveLearning::new();
    for _ in 0..10 {
        learning.learn_from_scan(&quiet_private_telemetry());
    }
    let params = learning.get_optimal_params(v4(192, 168, 1, 10));
    assert!(params.timeout >= 100 && params.timeout <= 200);
    assert!(params.parallelism >= 50 + 8);
    // the pacing halves toward zero on a quiet class
    assert!(params.rate_limit < 50);
}

#[test]
fn test_adaptive_cold_profile_hands_out_zeros() {
    let learning = AdaptiveLearning::new();
    let params = learning.get_optimal_params(v4(192, 168, 1, 10));
    assert_eq!(params.timeout, 0);
    assert_eq!(params.rate_limit, 0);
    assert_eq!(params.parallelism, 0);
    // before five folds the defaults stand
    let mut warming = AdaptiveLearning::new();
    for _ in 0..4 {
        warming.learn_from_scan(&quiet_private_telemetry());
    }
    assert_eq!(warming.get_optimal_params(v4(192, 168, 1, 10)).timeout, 0);
}

fn telemetry_row(
    port: u16,
    is_open: bool,
    is_filtered: bool,
    is_error: bool,
    response_time: Option<u64>,
) -> PortScanResult {
    PortScanResult { port, is_open, is_filtered, is_error, response_time, service_detected: None }
}

#[test]
fn test_telemetry_derivation() {
    let rows = vec![
        telemetry_row(22, true, false, false, Some(30)),
        telemetry_row(23, false, true, false, None),
        telemetry_row(81, false, false, false, Some(10)),
        telemetry_row(99, false, true, false, None),
    ];
    let (mean, rate) = compute_telemetry(&rows, 1000);
    assert_eq!(mean, 20);
    assert_eq!(rate, 500);
}

#[test]
fn test_telemetry_elides_probe_errors() {
    // a measured probe error never feeds the mean; an unanswered one
    // counts toward the timeout rate
    let rows = vec![
        telemetry_row(22, true, false, false, Some(30)),
        telemetry_row(23, false, false, true, Some(2)),
        telemetry_row(24, false, false, true, None),
        telemetry_row(25, false, false, false, None),
    ];
    let (mean, rate) = compute_telemetry(&rows, 1000);
    // samples: 30 (measured) and 25 (closed estimate); one timeout of four
    assert_eq!(mean, 27);
    assert_eq!(rate, 250);
}

#[test]
fn test_scanner_defaults_and_plan() {
    let scanner = Scanner::new(100, 1000, 10);
    assert_eq!(scanner.rate_limit, 100);
    assert_eq!(scanner.timeout, 1000);
    assert_eq!(scanner.parallel_hosts, 10);
    let targets = vec![v4(10, 0, 0, 1), v4(10, 0, 0, 2)];
    let ports = vec![22u16, 80];
    let plan = scan_plan(&targets, &ports);
    assert_eq!(
        plan,
        vec![
            (v4(10, 0, 0, 1), 22),
            (v4(10, 0, 0, 1), 80),
            (v4(10, 0, 0, 2), 22),
            (v4(10, 0, 0, 2), 80)
        ]
    );
    assert!(check_fd_budget(10, 50, 1024).is_ok());
    assert!(check_fd_budget(100, 500, 1024).is_err());
}

#[test]
fn test_service_identifier_http() {
    let response = b"HTTP/1.1 200 OK\r\nServer: nginx/1.24\r\n\r\n";
    let info = identify_response(response).unwrap();
    assert_eq!(info.name, "HTTP");
    assert_eq!(info.banner.as_deref(), Some("HTTP/1.1 200 OK"));
    assert_eq!(info.confidence_percent, 90);
    assert_eq!(info.additional_info.len(), 1);
    assert_eq!(info.additional_info[0].0, "server");
    assert_eq!(info.additional_info[0].1, "nginx/1.24");
}

#[test]
fn test_service_identifier_ssh_tls_dns() {
    let ssh = identify_response(b"SSH-2.0-OpenSSH_9.6\r\n").unwrap();
    assert_eq!(ssh.name, "SSH");
    assert_eq!(ssh.version.as_deref(), Some("SSH-2.0-OpenSSH_9.6"));
    assert_eq!(ssh.confidence_percent, 95);

    let hello = create_tls_client_hello();
    assert_eq!(hello.len(), 50);
    assert_eq!(&hello[0..2], &[0x16, 0x03]);
    let tls = identify_response(&hello).unwrap();
    assert_eq!(tls.name, "TLS");
    assert_eq!(tls.confidence_percent, 85);

    let query = create_dns_query();
    assert_eq!(query.len(), 28);
    assert_eq!(&query[0..2], &[0x12, 0x34]);
    let dns = identify_response(&query).unwrap();
    assert_eq!(dns.name, "DNS");

    let ftp = identify_response(b"220 Welcome to my ftp server\r\n").unwrap();
    assert_eq!(ftp.name, "FTP");
    assert_eq!(ftp.confidence_percent, 90);
    assert!(identify_response(b"nothing to see").is_none());
}

#[test]
fn test_service_labels() {
    assert_eq!(identify_service(b"HTTP/1.1 200 OK\r\nServer: nginx\r\n\r\n"), "nginx");
    assert_eq!(identify_service(b"ssh-2.0 something"), "SSH Server");
    assert_eq!(identify_service(b"220 smtp ready"), "SMTP Server");
    assert_eq!(identify_service(b"junk"), "");
    assert_eq!(get_service_name(22), "SSH");
    assert_eq!(get_service_name(5432), "POSTGRESQL");
    assert_eq!(get_service_name(4), "UNKNOWN");
}

#[test]
fn test_candidate_probe_plan() {
    assert_eq!(candidate_probes(80), vec![ProbeKind::Http]);
    assert_eq!(candidate_probes(8443), vec![ProbeKind::Http, ProbeKind::Tls]);
    assert_eq!(candidate_probes(22), vec![ProbeKind::Ssh]);
    assert_eq!(candidate_probes(25), vec![ProbeKind::Smtp]);
    assert_eq!(candidate_probes(12345), vec![ProbeKind::BannerGrab]);
}
