//! Target and port expansion: grammar, ordering, deduplication, and the
//! render-then-expand round trip.

use portscan::net::Address;
use portscan::ports::{parse_ports, render_ports};
use portscan::targets::{expand_cidr, expand_range, parse_targets, render_address, render_targets};

fn v4(a: u8, b: u8, c: u8, d: u8) -> Address {
    Address::V4(
        ((a as u32) << 24) | ((b as u32) << 16) | ((c as u32) << 8) | (d as u32),
    )
}

#[test]
fn test_port_spec_with_range_and_alias() {
    let got = parse_ports("22,80,1000-1002,web").unwrap();
    let want: Vec<u16> = vec![
        22, 80, 443, 1000, 1001, 1002, 3000, 5000, 8000, 8008, 8080, 8443, 8888, 9000,
    ];
    assert_eq!(got, want);
}

#[test]
fn test_port_aliases() {
    let common = parse_ports("common").unwrap();
    assert_eq!(common.len(), 24);
    assert!(common.contains(&22) && common.contains(&27017));
    let top = parse_ports("top100").unwrap();
    assert_eq!(top.len(), 100);
    assert!(top.contains(&7) && top.contains(&49157));
    let mail = parse_ports("mail").unwrap();
    assert_eq!(mail, vec![25, 110, 143, 465, 587, 993, 995]);
    let db = parse_ports("db").unwrap();
    assert_eq!(db, vec![1433, 1521, 3306, 5432, 6379, 27017]);
}

#[test]
fn test_port_spec_rejects_bad_input() {
    assert!(parse_ports("0").is_err());
    assert!(parse_ports("70000").is_err());
    assert!(parse_ports("abc").is_err());
    assert!(parse_ports("80-22").is_err());
    assert!(parse_ports("").is_err());
    assert!(parse_ports("22,,80").is_err());
    assert!(parse_ports("5-0").is_err());
}

#[test]
fn test_port_spec_deduplicates_and_sorts() {
    let got = parse_ports("443,80,443,80-82").unwrap();
    assert_eq!(got, vec![80, 81, 82, 443]);
}

#[test]
fn test_port_expansion_idempotent() {
    let first = parse_ports("22,80,1000-1002,web").unwrap();
    let rendered = render_ports(&first);
    let again = parse_ports(&rendered).unwrap();
    assert_eq!(first, again);
}

#[test]
fn test_cidr_slash_30() {
    let got = parse_targets("192.168.1.0/30").unwrap();
    assert_eq!(got, vec![v4(192, 168, 1, 1), v4(192, 168, 1, 2)]);
}

#[test]
fn test_cidr_slash_31_and_32() {
    let got = parse_targets("192.168.1.0/31").unwrap();
    assert_eq!(got, vec![v4(192, 168, 1, 0), v4(192, 168, 1, 1)]);
    let got = parse_targets("10.0.0.7/32").unwrap();
    assert_eq!(got, vec![v4(10, 0, 0, 7)]);
}

#[test]
fn test_cidr_expansion_excludes_network_and_broadcast() {
    let hosts = expand_cidr(0xC0A80100, 24);
    assert_eq!(hosts.len(), 254);
    assert_eq!(hosts[0], 0xC0A80101);
    assert_eq!(hosts[253], 0xC0A801FE);
}

#[test]
fn test_dash_range() {
    let got = parse_targets("192.168.1.5-192.168.1.7").unwrap();
    assert_eq!(
        got,
        vec![v4(192, 168, 1, 5), v4(192, 168, 1, 6), v4(192, 168, 1, 7)]
    );
    let hosts = expand_range(5, 7);
    assert_eq!(hosts, vec![5, 6, 7]);
    // descending or cross-subnet ranges are malformed
    assert!(parse_targets("192.168.1.7-192.168.1.5").is_err());
    assert!(parse_targets("192.168.1.250-192.168.2.5").is_err());
}

#[test]
fn test_target_dedup_keeps_first_seen_order() {
    let got = parse_targets("10.0.0.2,10.0.0.1,10.0.0.2").unwrap();
    assert_eq!(got, vec![v4(10, 0, 0, 2), v4(10, 0, 0, 1)]);
}

#[test]
fn test_target_literals() {
    assert_eq!(parse_targets("127.0.0.1").unwrap(), vec![v4(127, 0, 0, 1)]);
    assert_eq!(parse_targets("::1").unwrap(), vec![Address::V6(1)]);
    assert_eq!(
        parse_targets("fe80::1").unwrap(),
        vec![Address::V6(0xfe80_0000_0000_0000_0000_0000_0000_0001)]
    );
    // hostname-shaped tokens are for the resolver, not the expander
    assert!(parse_targets("example.com").is_err());
    assert!(parse_targets("1.2.3.256").is_err());
    assert!(parse_targets("1.2.3").is_err());
}

#[test]
fn test_target_expansion_idempotent() {
    let first = parse_targets("192.168.1.0/30,10.0.0.1,::1").unwrap();
    let rendered = render_targets(&first);
    let again = parse_targets(&rendered).unwrap();
    assert_eq!(first, again);
}

#[test]
fn test_render_address_forms() {
    assert_eq!(render_address(v4(192, 168, 1, 1)), "192.168.1.1");
    assert_eq!(render_address(Address::V6(1)), "0:0:0:0:0:0:0:1");
    assert_eq!(
        render_address(Address::V6(0xfe80_0000_0000_0000_0000_0000_0000_0001)),
        "fe80:0:0:0:0:0:0:1"
    );
}
