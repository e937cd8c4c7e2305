use wg_subscriber::peer::{
    add_or_update_peer, batch_restore_peers, deserialize_psk, remove_peer, PeerInfo, PskField,
};
use wg_subscriber::state::{get_wg_state, WgState};

fn ips(list: &[&str]) -> Option<Vec<String>> {
    Some(list.iter().map(|s| s.to_string()).collect())
}

fn text(s: &str) -> Option<String> {
    Some(s.to_string())
}

fn known() -> WgState {
    get_wg_state("i\nk\tpsk\t192.0.2.1:5\t10.0.0.9/32\t5\t1\t2\t0\n")
}

#[test]
fn psk_field_is_understood() {
    assert_eq!(deserialize_psk(PskField::Missing).ok().unwrap(), None);
    assert_eq!(deserialize_psk(PskField::Null).ok().unwrap(), text(""));
    assert_eq!(deserialize_psk(PskField::Text("abc".to_string())).ok().unwrap(), text("abc"));
    assert!(deserialize_psk(PskField::Other).is_err());
}

#[test]
fn new_peer_gets_defaults() {
    let plan = add_or_update_peer(
        "wg0",
        "k",
        &text("192.0.2.7:1"),
        &ips(&["10.0.0.2/32", "10.1.0.0/16"]),
        None,
        &None,
        &WgState::empty(),
    );
    assert!(plan.removal.is_none());
    let update = plan.update.unwrap();
    assert_eq!(update.handshake.as_deref(), Some("10.0.0.2"));
    assert_eq!(
        update.args(&None),
        vec![
            "set", "wg0", "peer", "k", "persistent-keepalive", "25", "endpoint", "192.0.2.7:1",
            "allowed-ips", "10.0.0.2/32,10.1.0.0/16"
        ]
    );
}

#[test]
fn known_peer_keeps_what_is_not_named() {
    let plan =
        add_or_update_peer("wg0", "k", &None, &ips(&["10.0.0.2/32"]), None, &text("s"), &known());
    assert!(plan.removal.is_none());
    let update = plan.update.unwrap();
    assert_eq!(update.handshake, None);
    assert_eq!(update.preshared_key.as_deref(), Some("s"));
    assert_eq!(
        update.args(&text("/tmp/psk")),
        vec!["set", "wg0", "peer", "k", "preshared-key", "/tmp/psk", "allowed-ips", "10.0.0.2/32"]
    );
}

#[test]
fn clearing_the_key_removes_the_peer_first() {
    let plan = add_or_update_peer("wg0", "k", &None, &None, Some(0), &text(""), &known());
    assert_eq!(plan.removal, Some(remove_peer("wg0", "k")));
    let update = plan.update.unwrap();
    assert_eq!(update.allowed_ips, vec!["10.0.0.9/32"]);
    assert_eq!(update.preshared_key, None);
    assert_eq!(update.keepalive, Some(0));
    assert_eq!(update.handshake.as_deref(), Some("10.0.0.9"));
}

#[test]
fn absent_key_changes_no_key() {
    let plan =
        add_or_update_peer("wg0", "k", &None, &ips(&["10.0.0.2/32"]), None, &None, &known());
    assert!(plan.removal.is_none());
    assert_eq!(plan.update.unwrap().preshared_key, None);
}

#[test]
fn peer_without_addresses_is_not_set() {
    for list in [None, ips(&[])] {
        let plan = add_or_update_peer("wg0", "n", &None, &list, None, &None, &WgState::empty());
        assert!(plan.update.is_none());
        // A peer that is there needs its addresses named, too.
        let plan = add_or_update_peer("wg0", "k", &None, &list, None, &None, &known());
        assert!(plan.update.is_none());
    }
}

#[test]
fn removal_arguments() {
    assert_eq!(remove_peer("wg0", "k"), vec!["set", "wg0", "peer", "k", "remove"]);
}

fn info(psk: Option<&str>) -> PeerInfo {
    PeerInfo {
        endpoint: text("192.0.2.1:5"),
        allowed_ips: ips(&["10.0.0.2/32", "fd00::2/128"]),
        persistent_keepalive: Some(15),
        preshared_key: psk.map(|s| s.to_string()),
        local_ips: None,
    }
}

#[test]
fn batch_configuration_is_written() {
    let bare = PeerInfo {
        endpoint: None,
        allowed_ips: ips(&[]),
        persistent_keepalive: None,
        preshared_key: None,
        local_ips: None,
    };
    let config = vec![
        ("a".to_string(), info(Some("secret"))),
        ("me".to_string(), info(Some(""))),
        ("b".to_string(), info(Some(""))),
        ("c".to_string(), bare),
    ];
    let batch = batch_restore_peers(&config, "me").unwrap();
    assert_eq!(
        batch.conf,
        "[Interface]\n\n\
         [Peer]\nPublicKey = a\nPresharedKey = secret\nPersistentKeepalive = 15\n\
         Endpoint = 192.0.2.1:5\nAllowedIPs = 10.0.0.2/32, fd00::2/128\n\n\
         [Peer]\nPublicKey = b\nPersistentKeepalive = 15\n\
         Endpoint = 192.0.2.1:5\nAllowedIPs = 10.0.0.2/32, fd00::2/128\n\n\
         [Peer]\nPublicKey = c\n"
    );
    assert_eq!(batch.clear_psk_peers, vec!["b"]);
}

#[test]
fn no_peers_make_no_batch() {
    assert!(batch_restore_peers(&[], "me").is_none());
    let only_me = batch_restore_peers(&[("me".to_string(), info(None))], "me").unwrap();
    assert_eq!(only_me.conf, "[Interface]\n");
}
