use wg_subscriber::address::{
    configure_self_ip, consider_self_ip, extract_self_ips, get_interface_cidrs,
};
use wg_subscriber::foreign::Ip;

fn list(items: &[&str]) -> Vec<String> {
    items.iter().map(|s| s.to_string()).collect()
}

fn here(v4: &[&str], v6: &[&str]) -> Option<(Vec<String>, Vec<String>)> {
    Some((list(v4), list(v6)))
}

#[test]
fn addresses_are_read_from_ip() {
    let (v4, v6) = get_interface_cidrs(
        "3: wg0    inet 10.0.0.2/32 scope global wg0\\       valid_lft forever\n\
         3: wg0    inet6 fd00::2/128 scope global \\       valid_lft forever\n\
         3: wg0    inet 10.0.0.3/24 scope global wg0\n\
         3: wg0 inet\n\
         3: wg0 link x y\n",
    );
    assert_eq!(v4, vec!["10.0.0.2/32", "10.0.0.3/24"]);
    assert_eq!(v6, vec!["fd00::2/128"]);
    assert_eq!(get_interface_cidrs(""), (vec![], vec![]));
}

#[test]
fn first_host_of_each_family_is_the_own() {
    let ips = list(&[
        "10.0.0.0/8", "10.0.0.2/32", "10.0.0.3/32", "fd00::/64", "fd00::2/128", "fd00::3/128",
    ]);
    assert_eq!(extract_self_ips(&ips), ("10.0.0.2/32".to_string(), "fd00::2/128".to_string()));
}

#[test]
fn prefix_length_of_an_own_address() {
    let none = (String::new(), String::new());
    // Without a prefix length an IPv4 address counts as a host, an IPv6 one does not.
    assert_eq!(extract_self_ips(&list(&["10.0.0.2"])).0, "10.0.0.2");
    assert_eq!(extract_self_ips(&list(&["fd00::2"])), none);
    assert_eq!(extract_self_ips(&list(&["10.0.0.2/x", "10.0.0.2/256", "nonsense/32"])), none);
    assert_eq!(extract_self_ips(&list(&["fd00::2/32", "10.0.0.2/128"])), none);
    assert_eq!(extract_self_ips(&[]), none);
}

#[test]
fn one_network_is_considered() {
    let none = || (String::new(), String::new());
    let v4 = Some(Ip::V4(1));
    let v6 = Some(Ip::V6(1));
    assert_eq!(consider_self_ip(none(), "a/32", v4).0, "a/32");
    assert_eq!(consider_self_ip(none(), "a/32", v6), none());
    assert_eq!(consider_self_ip(none(), "a/128", v6).1, "a/128");
    assert_eq!(consider_self_ip(none(), "a/32", None), none());
    let taken = ("b/32".to_string(), String::new());
    assert_eq!(consider_self_ip(taken, "a/32", v4).0, "b/32");
}

#[test]
fn only_the_wanted_address_stays() {
    let commands = configure_self_ip(
        "wg0",
        &here(&["10.0.0.9/24", "10.0.0.2/24", "10.0.0.2/32"], &["fd00::2/128"]),
        "10.0.0.2/32",
        "fd00::2/128",
    );
    assert_eq!(
        commands,
        vec![
            vec!["addr", "del", "10.0.0.9/24", "dev", "wg0"],
            vec!["addr", "del", "10.0.0.2/24", "dev", "wg0"],
            vec!["addr", "add", "10.0.0.2/32", "dev", "wg0"],
        ]
    );
}

#[test]
fn missing_address_is_added_as_a_host() {
    let commands = configure_self_ip("wg0", &here(&[], &["fd00::9/64"]), "10.0.0.2", "fd00::2/64");
    assert_eq!(
        commands,
        vec![
            vec!["addr", "add", "10.0.0.2/32", "dev", "wg0"],
            vec!["-6", "addr", "del", "fd00::9/64", "dev", "wg0"],
            vec!["-6", "addr", "add", "fd00::2/128", "dev", "wg0"],
        ]
    );
}

#[test]
fn unwanted_family_is_cleared() {
    let commands =
        configure_self_ip("wg0", &here(&["10.0.0.2/32"], &["fd00::2/128"]), "", "fd00::2/128");
    assert_eq!(commands, vec![vec!["addr", "del", "10.0.0.2/32", "dev", "wg0"]]);
}

#[test]
fn unreadable_addresses_are_only_added_to() {
    assert_eq!(
        configure_self_ip("wg0", &None, "10.0.0.2/32", "fd00::2/128"),
        vec![
            vec!["addr", "add", "10.0.0.2/32", "dev", "wg0"],
            vec!["-6", "addr", "add", "fd00::2/128", "dev", "wg0"],
        ]
    );
    assert!(configure_self_ip("wg0", &None, "", "").is_empty());
}

#[test]
fn settled_interface_needs_nothing() {
    let commands = configure_self_ip("wg0", &here(&["10.0.0.2/32"], &[]), "10.0.0.2/32", "");
    assert!(commands.is_empty());
}

#[test]
fn second_configuration_does_nothing() {
    for wanted in ["10.0.0.2/24", ""] {
        let first = configure_self_ip("wg0", &here(&["10.0.0.9/24", "10.0.0.2/24"], &[]), wanted, "");
        assert!(!first.is_empty());
        let left: &[&str] = if wanted.is_empty() { &[] } else { &["10.0.0.2/32"] };
        assert!(configure_self_ip("wg0", &here(left, &[]), wanted, "").is_empty());
    }
}
