use wg_subscriber::foreign::Net;
use wg_subscriber::lan::{
    has_lan_peer, is_lan_active, preserve_lan_endpoint, process_lan_verification_tasks,
    switch_endpoint, try_switch_to_lan_endpoint, update_endpoint_with_fallback, update_wg_endpoint,
    Lan,
};
use wg_subscriber::state::{get_wg_state, WgState};
use wg_subscriber::table::Table;

const SEC: u64 = 1_000_000_000;

fn lan(enabled: bool) -> Lan {
    Lan { enabled, nets: vec![Net::V4 { addr: 0xc0a80100, prefix: 24 }] }
}

/// A peer with that endpoint and a handshake at 1000.
fn state(endpoint: &str) -> WgState {
    get_wg_state(&format!("i\nk\t-\t{}\t10.0.0.2/32\t1000\t0\t0\t0\n", endpoint))
}

fn told(list: &[&str]) -> Vec<String> {
    list.iter().map(|s| s.to_string()).collect()
}

#[test]
fn local_endpoint_with_a_young_handshake_is_active() {
    let s = state("192.168.1.9:5");
    assert!(is_lan_active(&s, "k", "192.168.1.9:5", &lan(true), 1020));
    assert!(!is_lan_active(&s, "k", "192.168.1.9:5", &lan(true), 1021));
    assert!(!is_lan_active(&s, "k", "192.168.2.9:5", &lan(true), 1000));
    assert!(!is_lan_active(&s, "k", "x", &lan(true), 1000));
    assert!(!is_lan_active(&s, "other", "192.168.1.9:5", &lan(true), 1000));
    assert!(!is_lan_active(&s, "k", "192.168.1.9:5", &lan(false), 1000));
}

#[test]
fn working_local_endpoint_is_preserved() {
    let s = state("192.168.1.9:5");
    let wanted = Some("203.0.113.1:9".to_string());
    let kept = preserve_lan_endpoint(&s, "k", &wanted, &lan(true), 1000);
    assert_eq!(kept.as_deref(), Some("192.168.1.9:5"));
    assert_eq!(preserve_lan_endpoint(&s, "k", &None, &lan(true), 1000).as_deref(), kept.as_deref());
    assert_eq!(preserve_lan_endpoint(&s, "k", &wanted, &lan(true), 2000), wanted);
    assert_eq!(preserve_lan_endpoint(&s, "k", &wanted, &lan(false), 1000), wanted);
    assert_eq!(preserve_lan_endpoint(&s, "new", &wanted, &lan(true), 1000), wanted);
}

#[test]
fn local_peer_is_noticed() {
    assert!(has_lan_peer(&state("192.168.1.9:5"), &lan(true)));
    assert!(!has_lan_peer(&state("192.168.1.9:5"), &lan(false)));
    assert!(!has_lan_peer(&state("203.0.113.1:5"), &lan(true)));
    assert!(!has_lan_peer(&state("(none)"), &lan(true)));
    assert!(!has_lan_peer(&state("192.168.1.9:5"), &Lan { enabled: true, nets: vec![] }));
}

#[test]
fn endpoint_arguments() {
    let args = vec!["set", "wg0", "peer", "k", "endpoint", "1.2.3.4:5"];
    assert_eq!(update_wg_endpoint("wg0", "k", "1.2.3.4:5"), args);
    assert_eq!(update_endpoint_with_fallback("wg0", "k", "1.2.3.4:5", &None), args);
}

#[test]
fn switch_is_tried_every_two_minutes() {
    let mut attempts: Table<u64> = Table::new();
    let list = told(&["203.0.113.1:1", "192.168.1.9:51820"]);
    let first = try_switch_to_lan_endpoint(&mut attempts, "k", &list, &lan(true), SEC);
    assert_eq!(first.as_deref(), Some("192.168.1.9:51820"));
    assert_eq!(attempts.get("k"), Some(&SEC));
    let soon = try_switch_to_lan_endpoint(&mut attempts, "k", &list, &lan(true), 121 * SEC - 1);
    assert_eq!(soon, None);
    assert_eq!(attempts.get("k"), Some(&SEC));
    let later = try_switch_to_lan_endpoint(&mut attempts, "k", &list, &lan(true), 121 * SEC);
    assert_eq!(later.as_deref(), Some("192.168.1.9:51820"));
    // Another peer has its own time.
    assert!(try_switch_to_lan_endpoint(&mut attempts, "j", &list, &lan(true), SEC).is_some());
}

#[test]
fn no_switch_without_reason() {
    let mut attempts: Table<u64> = Table::new();
    let list = told(&["192.168.1.9:51820"]);
    assert_eq!(try_switch_to_lan_endpoint(&mut attempts, "k", &list, &lan(false), 0), None);
    let far = told(&["203.0.113.1:1"]);
    assert_eq!(try_switch_to_lan_endpoint(&mut attempts, "k", &far, &lan(true), 0), None);
    assert_eq!(attempts.len(), 0);
}

#[test]
fn failed_switch_is_taken_back() {
    let mut tasks = Vec::new();
    let before = state("203.0.113.1:5");
    let switch =
        switch_endpoint(&mut tasks, "wg0", "k", "192.168.1.9:5", &before, 8, SEC).unwrap();
    assert_eq!(switch.args, update_wg_endpoint("wg0", "k", "192.168.1.9:5"));
    assert_eq!(switch.handshake.as_deref(), Some("10.0.0.2"));
    assert_eq!(tasks.len(), 1);
    let after = state("192.168.1.9:5");
    assert!(process_lan_verification_tasks(&mut tasks, &after, 2000, 9 * SEC - 1).is_empty());
    assert_eq!(tasks.len(), 1);
    let reverts = process_lan_verification_tasks(&mut tasks, &after, 2000, 9 * SEC);
    assert_eq!(reverts, vec![update_wg_endpoint("wg0", "k", "203.0.113.1:5")]);
    assert!(tasks.is_empty());
}

#[test]
fn confirmed_switch_stays() {
    let mut tasks = Vec::new();
    switch_endpoint(&mut tasks, "wg0", "k", "192.168.1.9:5", &state("(none)"), 8, 0);
    let reverts =
        process_lan_verification_tasks(&mut tasks, &state("192.168.1.9:5"), 1020, 100 * SEC);
    assert!(reverts.is_empty());
    assert!(tasks.is_empty());
}

#[test]
fn switch_that_someone_undid_is_forgotten() {
    let mut tasks = Vec::new();
    switch_endpoint(&mut tasks, "wg0", "k", "192.168.1.9:5", &state("203.0.113.1:5"), 8, 0);
    let reverts =
        process_lan_verification_tasks(&mut tasks, &state("198.51.100.1:5"), 2000, 100 * SEC);
    assert!(reverts.is_empty());
    assert!(tasks.is_empty());
}

#[test]
fn failed_switch_without_a_way_back_is_dropped() {
    let mut tasks = Vec::new();
    switch_endpoint(&mut tasks, "wg0", "k", "192.168.1.9:5", &state("(none)"), 8, 0);
    let reverts =
        process_lan_verification_tasks(&mut tasks, &state("192.168.1.9:5"), 2000, 8 * SEC);
    assert!(reverts.is_empty());
    assert!(tasks.is_empty());
}

#[test]
fn switch_to_the_endpoint_in_use_is_none() {
    let mut tasks = Vec::new();
    let s = state("192.168.1.9:5");
    assert!(switch_endpoint(&mut tasks, "wg0", "k", "192.168.1.9:5", &s, 8, 0).is_none());
    assert!(tasks.is_empty());
}

#[test]
fn failed_switch_to_an_ipv6_endpoint_is_taken_back() {
    let lan = Lan { enabled: true, nets: vec![Net::V6 { addr: 0xfd00 << 112, prefix: 64 }] };
    let mut attempts: Table<u64> = Table::new();
    let list = told(&["[fd00::2]:51820"]);
    let target = try_switch_to_lan_endpoint(&mut attempts, "k", &list, &lan, SEC).unwrap();
    assert_eq!(target, "[fd00::2]:51820");
    let mut tasks = Vec::new();
    let before = state("1.2.3.4:5");
    assert!(switch_endpoint(&mut tasks, "wg0", "k", &target, &before, 8, SEC).is_some());
    let after = state("[fd00::2]:51820");
    assert!(process_lan_verification_tasks(&mut tasks, &after, 2000, 9 * SEC - 1).is_empty());
    assert_eq!(tasks.len(), 1);
    let reverts = process_lan_verification_tasks(&mut tasks, &after, 2000, 9 * SEC);
    assert_eq!(reverts, vec![update_wg_endpoint("wg0", "k", "1.2.3.4:5")]);
    assert!(tasks.is_empty());
    // The endpoint in use is known as such.
    assert!(switch_endpoint(&mut tasks, "wg0", "k", &target, &after, 8, SEC).is_none());
}
