use wg_subscriber::foreign::{Ip, Net};
use wg_subscriber::net::{
    collect_my_local_endpoints, find_local_address, find_same_lan_endpoint,
    get_local_lan_networks, is_local,
    is_local_endpoint, parse_endpoint, pick_endpoint, should_report_ipv4, should_report_ipv6,
    split_bracketed, split_plain, write_endpoint, IfAddr, Iface,
};

fn v4(a: u8, b: u8, c: u8, d: u8) -> u32 {
    u32::from_be_bytes([a, b, c, d])
}

const ULA: u128 = 0xfd00_0000_0000_0000_0000_0000_0000_0001;

fn iface(name: &str, addr: IfAddr) -> Iface {
    Iface { name: name.to_string(), addr }
}

fn machine() -> Vec<Iface> {
    vec![
        iface("lo", IfAddr::V4 { ip: v4(127, 0, 0, 1), netmask: v4(255, 0, 0, 0) }),
        iface("eth0", IfAddr::V4 { ip: v4(192, 168, 1, 7), netmask: v4(255, 255, 255, 0) }),
        iface("eth1", IfAddr::V4 { ip: v4(10, 9, 8, 7), netmask: v4(255, 0, 255, 0) }),
        iface("eth2", IfAddr::V4 { ip: v4(203, 0, 113, 5), netmask: v4(255, 255, 255, 0) }),
        iface("wg0", IfAddr::V4 { ip: v4(10, 254, 1, 2), netmask: v4(255, 255, 255, 255) }),
        iface("eth0", IfAddr::V6 { ip: ULA, netmask: !0u128 << 64 }),
        iface("eth0", IfAddr::V6 { ip: 0xfe80 << 112 | 1, netmask: !0u128 << 64 }),
    ]
}

#[test]
fn private_addresses() {
    for ip in [v4(10, 0, 0, 0), v4(10, 255, 255, 255), v4(172, 16, 0, 1), v4(172, 31, 255, 255)] {
        assert!(should_report_ipv4(ip));
    }
    assert!(should_report_ipv4(v4(192, 168, 0, 0)));
    for ip in [v4(172, 32, 0, 0), v4(172, 15, 255, 255), v4(192, 169, 0, 0), v4(127, 0, 0, 1)] {
        assert!(!should_report_ipv4(ip));
    }
    assert!(!should_report_ipv4(v4(8, 8, 8, 8)));
}

#[test]
fn unique_local_addresses() {
    assert!(should_report_ipv6(ULA));
    assert!(should_report_ipv6(0xfc00 << 112));
    assert!(!should_report_ipv6(0));
    assert!(!should_report_ipv6(1));
    assert!(!should_report_ipv6(0xfe80 << 112 | 1));
    assert!(!should_report_ipv6(0xff02 << 112 | 1));
    assert!(!should_report_ipv6(0x2001 << 112));
}

#[test]
fn local_networks_of_a_machine() {
    assert_eq!(
        get_local_lan_networks(&machine()),
        vec![
            Net::V4 { addr: v4(192, 168, 1, 0), prefix: 24 },
            Net::V6 { addr: 0xfd00 << 112, prefix: 64 },
        ]
    );
    assert!(get_local_lan_networks(&[]).is_empty());
}

#[test]
fn network_holds_the_address_it_was_made_from() {
    for mask in 0..=32u32 {
        let netmask = if mask == 0 { 0 } else { !0u32 << (32 - mask) };
        let ip = v4(192, 168, 1, 7);
        let nets = get_local_lan_networks(&[iface("eth0", IfAddr::V4 { ip, netmask })]);
        assert_eq!(nets.len(), 1);
        assert!(is_local(&nets, &Ip::V4(ip)));
    }
}

#[test]
fn endpoints_that_are_told_to_others() {
    assert_eq!(
        collect_my_local_endpoints(51820, &machine()),
        vec!["192.168.1.7:51820", "10.9.8.7:51820", "[fd00::1]:51820"]
    );
}

#[test]
fn endpoints_told_can_be_read() {
    let read: Vec<_> = collect_my_local_endpoints(51820, &machine())
        .iter()
        .map(|e| parse_endpoint(e).unwrap())
        .collect();
    assert_eq!(
        read,
        vec![
            (Ip::V4(v4(192, 168, 1, 7)), 51820),
            (Ip::V4(v4(10, 9, 8, 7)), 51820),
            (Ip::V6(ULA), 51820),
        ]
    );
}

#[test]
fn endpoints_are_read() {
    let ip = v4(1, 2, 3, 4);
    assert_eq!(parse_endpoint("1.2.3.4:0"), Some((Ip::V4(ip), 0)));
    assert_eq!(parse_endpoint("1.2.3.4:65535"), Some((Ip::V4(ip), 65535)));
    assert_eq!(parse_endpoint("1.2.3.4:+5"), Some((Ip::V4(ip), 5)));
    assert_eq!(parse_endpoint("[fd00::1]:51820"), Some((Ip::V6(ULA), 51820)));
    assert_eq!(parse_endpoint("fd00::1:51820"), Some((Ip::V6(ULA), 51820)));
    assert_eq!(parse_endpoint("[fd00::1%2]:7"), Some((Ip::V6(ULA), 7)));
    for bad in [
        "", ":", "1.2.3.4", "1.2.3.4:65536", "1.2.3.4:", "01.2.3.4:1", "1.2.3:1", "host:1",
        "[1.2.3.4]:1", "[fd00::1]", "[fd00::1]51820", "[fd00::1%x]:7", "[fd00::1]:+7",
    ] {
        assert_eq!(parse_endpoint(bad), None, "{}", bad);
    }
}

#[test]
fn first_local_endpoint_is_found() {
    let nets = get_local_lan_networks(&machine());
    let endpoints: Vec<String> = ["x", "10.0.0.1:1", "192.168.1.99:7", "[fd00::5]:8"]
        .iter()
        .map(|s| s.to_string())
        .collect();
    assert_eq!(
        find_same_lan_endpoint(&endpoints, &nets),
        Some(("192.168.1.99".to_string(), 7))
    );
    assert_eq!(
        find_same_lan_endpoint(&endpoints[3..], &nets),
        Some(("fd00::5".to_string(), 8))
    );
    assert_eq!(find_same_lan_endpoint(&endpoints[..2], &nets), None);
    assert_eq!(find_same_lan_endpoint(&endpoints, &[]), None);
}

#[test]
fn families_do_not_mix() {
    let all_v4 = [Net::V4 { addr: 0, prefix: 0 }];
    assert!(is_local_endpoint(&all_v4, "8.8.8.8:1"));
    assert!(!is_local_endpoint(&all_v4, "[fd00::1]:1"));
    assert!(!is_local_endpoint(&all_v4, "nonsense"));
    // A prefix that no address has holds nothing.
    assert!(!is_local(&[Net::V4 { addr: 0, prefix: 33 }], &Ip::V4(0)));
}

#[test]
fn endpoint_is_split_before_its_address_is_read() {
    let parts = |address: &str, port| Some((address.to_string(), port));
    assert_eq!(split_plain("1.2.3.4:5"), parts("1.2.3.4", 5));
    assert_eq!(split_plain("fd00::1:5"), parts("fd00::1", 5));
    assert_eq!(split_plain(":5"), parts("", 5));
    assert_eq!(split_plain("1.2.3.4"), None);
    assert_eq!(split_plain("1.2.3.4:65536"), None);
    assert_eq!(split_bracketed("[fd00::1]:5"), parts("fd00::1", 5));
    assert_eq!(split_bracketed("[fd00::1%4294967295]:5"), parts("fd00::1", 5));
    assert_eq!(split_bracketed("[fd00::1%4294967296]:5"), None);
    assert_eq!(split_bracketed("[fd00::1]:+5"), None);
    assert_eq!(split_bracketed("[fd00::1:5"), None);
    assert_eq!(split_bracketed("fd00::1]:5"), None);
}

#[test]
fn address_in_brackets_comes_first() {
    let v4 = Some(Ip::V4(1));
    let v6 = Some(Ip::V6(2));
    assert_eq!(pick_endpoint(Some((v6, 5)), Some((v4, 6))), Some((Ip::V6(2), 5)));
    assert_eq!(pick_endpoint(Some((v4, 5)), Some((v6, 6))), Some((Ip::V6(2), 6)));
    assert_eq!(pick_endpoint(None, Some((v4, 6))), Some((Ip::V4(1), 6)));
    assert_eq!(pick_endpoint(Some((v4, 5)), None), None);
    assert_eq!(pick_endpoint(Some((None, 5)), Some((None, 6))), None);
}

#[test]
fn endpoint_is_written_as_it_is_read() {
    assert_eq!(write_endpoint(&Ip::V4(v4(1, 2, 3, 4)), 5), "1.2.3.4:5");
    assert_eq!(write_endpoint(&Ip::V6(ULA), 65535), "[fd00::1]:65535");
    for ip in [Ip::V4(0), Ip::V4(u32::MAX), Ip::V6(0), Ip::V6(ULA), Ip::V6(u128::MAX)] {
        assert_eq!(parse_endpoint(&write_endpoint(&ip, 7)), Some((ip, 7)));
    }
}

#[test]
fn local_address_is_found() {
    let nets = get_local_lan_networks(&machine());
    let endpoints = vec!["10.0.0.1:1".to_string(), "[fd00::1]:8".to_string()];
    assert_eq!(find_local_address(&endpoints, &nets), Some((Ip::V6(ULA), 8)));
    assert_eq!(find_local_address(&endpoints[..1], &nets), None);
}
