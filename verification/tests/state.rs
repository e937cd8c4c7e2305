use wg_subscriber::state::{
    first_tunnel_ip, get_current_allowed_ips, get_current_endpoint, get_current_peers,
    get_latest_wg_state, get_wg_latest_handshakes, get_wg_state, has_recent_handshake,
    remember_wg_state, WgState,
};

const SEC: u64 = 1_000_000_000;

fn dump() -> WgState {
    get_wg_state(
        "priv\tpub\t51820\toff\n\
         alice\t(none)\t192.0.2.1:5000\t10.0.0.2/32,fd00::2/128\t1700000000\t100\t200\t25\n\
         \n\
         bob\tpsk\t(none)\t10.0.0.3/32,,\t0\tx\t7\toff\r\n\
         short\tline\n",
    )
}

#[test]
fn dump_is_read() {
    let state = dump();
    assert_eq!(state.listen_port, 51820);
    assert_eq!(get_current_peers(&state), vec!["alice", "bob"]);
    let alice = state.peers.get("alice").unwrap();
    assert_eq!(alice.endpoint.as_deref(), Some("192.0.2.1:5000"));
    assert_eq!(alice.allowed_ips, vec!["10.0.0.2/32", "fd00::2/128"]);
    assert_eq!(alice.latest_handshake, Some(1700000000));
    assert_eq!((alice.transfer_rx, alice.transfer_tx), (100, 200));
    let bob = state.peers.get("bob").unwrap();
    assert_eq!(bob.endpoint, None);
    assert_eq!(bob.allowed_ips, vec!["10.0.0.3/32"]);
    assert_eq!(bob.latest_handshake, None);
    assert_eq!((bob.transfer_rx, bob.transfer_tx), (0, 7));
}

#[test]
fn port_falls_back_only_where_it_is_named() {
    assert_eq!(get_wg_state("a\tb\tnone\toff").listen_port, 51822);
    assert_eq!(get_wg_state("a\tb\t70000").listen_port, 51822);
    assert_eq!(get_wg_state("a\tb").listen_port, 0);
    assert_eq!(get_wg_state("").listen_port, 0);
    assert_eq!(get_wg_state("").peers.len(), 0);
}

#[test]
fn later_line_replaces_the_peer() {
    let state = get_wg_state(
        "i\nk\t-\ta:1\t\t5\t1\t2\t0\nother\t-\tb:1\t\t5\t1\t2\t0\nk\t-\tc:1\t\t6\t3\t4\t0\n",
    );
    assert_eq!(get_current_peers(&state), vec!["k", "other"]);
    assert_eq!(get_current_endpoint(&state, "k").as_deref(), Some("c:1"));
    assert_eq!(state.peers.get("k").unwrap().latest_handshake, Some(6));
}

#[test]
fn handshake_age_is_measured() {
    let state = dump();
    assert!(has_recent_handshake(&state, "alice", 180, 1700000180));
    assert!(!has_recent_handshake(&state, "alice", 180, 1700000181));
    // A clock that is behind the handshake counts as no time at all.
    assert!(has_recent_handshake(&state, "alice", 0, 1600000000));
    assert!(!has_recent_handshake(&state, "bob", u64::MAX, 0));
    assert!(!has_recent_handshake(&state, "nobody", u64::MAX, 0));
}

#[test]
fn handshakes_are_listed() {
    let handshakes = get_wg_latest_handshakes(&dump());
    assert_eq!(handshakes.keys(), vec!["alice", "bob"]);
    assert_eq!(handshakes.get("alice"), Some(&Some(1700000000)));
    assert_eq!(handshakes.get("bob"), Some(&None));
    assert_eq!(handshakes.get("nobody"), None);
}

#[test]
fn missing_peer_is_named() {
    let state = dump();
    let ips = get_current_allowed_ips(&state, "alice").ok().unwrap();
    assert_eq!(ips, vec!["10.0.0.2/32", "fd00::2/128"]);
    let error = get_current_allowed_ips(&state, "nobody").err().unwrap();
    assert_eq!(error.pubkey, "nobody");
}

#[test]
fn endpoint_of_a_peer() {
    let state = dump();
    assert_eq!(get_current_endpoint(&state, "alice").as_deref(), Some("192.0.2.1:5000"));
    assert_eq!(get_current_endpoint(&state, "bob"), None);
    assert_eq!(get_current_endpoint(&state, "nobody"), None);
}

#[test]
fn tunnel_address_of_the_first_network() {
    let ips = vec!["10.0.0.2/32".to_string(), "fd00::2/128".to_string()];
    assert_eq!(first_tunnel_ip(&ips).as_deref(), Some("10.0.0.2"));
    assert_eq!(first_tunnel_ip(&["10.9.9.9".to_string()]).as_deref(), Some("10.9.9.9"));
    assert_eq!(first_tunnel_ip(&["/8".to_string()]).as_deref(), Some(""));
    assert_eq!(first_tunnel_ip(&[]), None);
}

#[test]
fn state_is_kept_for_its_time() {
    let mut cache = None;
    assert!(get_latest_wg_state(&cache, 2, 0).is_none());
    remember_wg_state(&mut cache, &dump(), 10 * SEC);
    let held = get_latest_wg_state(&cache, 2, 12 * SEC - 1).unwrap();
    assert_eq!(held.listen_port, 51820);
    assert_eq!(get_current_peers(&held), vec!["alice", "bob"]);
    assert!(get_latest_wg_state(&cache, 2, 12 * SEC).is_none());
    assert!(get_latest_wg_state(&cache, 0, 10 * SEC).is_none());
}

#[test]
fn nothing_read_is_no_port_and_no_peer() {
    let state = WgState::empty();
    assert_eq!(state.listen_port, 0);
    assert!(get_current_peers(&state).is_empty());
}
