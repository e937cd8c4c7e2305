use wg_subscriber::amnezia::AmneziaConfig;
use wg_subscriber::foreign::Net;
use wg_subscriber::lan::Lan;
use wg_subscriber::peer::PeerInfo;
use wg_subscriber::relay_pass::Relays;
use wg_subscriber::retry::RetryQueue;
use wg_subscriber::routes::AdvertisedRoutes;
use wg_subscriber::session::RegistrationState;
use wg_subscriber::snapshot::{
    accept_payload, config_entries, finish_snapshot, get_peers_with_psk, handle_full_snapshot,
    is_fresh, lan_candidates, plan_psk_clear, psk_clear_due, stale_peers, unpack, FullSnapshot,
};
use wg_subscriber::snapshot_pass::{
    apply_snapshot, Reply, SnapshotAction, SnapshotPass, SnapshotScene,
};
use wg_subscriber::state::{get_wg_state, WgState};
use wg_subscriber::table::Table;

fn list(items: &[&str]) -> Vec<String> {
    items.iter().map(|s| s.to_string()).collect()
}

fn peer(ips: &[&str], psk: Option<&str>) -> PeerInfo {
    PeerInfo {
        endpoint: Some("203.0.113.1:5".to_string()),
        allowed_ips: Some(list(ips)),
        persistent_keepalive: None,
        preshared_key: psk.map(|s| s.to_string()),
        local_ips: None,
    }
}

/// This node, a peer whose key is to be cleared, a peer with a local endpoint,
/// and a peer that a relay may have.
fn snapshot() -> FullSnapshot {
    let mut peers = Table::new();
    peers.insert("me".to_string(), peer(&["10.0.0.1/32", "fd00::1/128"], None));
    peers.insert("a".to_string(), peer(&["10.0.0.2/32"], Some("")));
    let mut b = peer(&["10.0.0.3/32"], Some("s"));
    b.local_ips = Some(list(&["192.168.1.3:5"]));
    peers.insert("b".to_string(), b);
    peers.insert("c".to_string(), peer(&["10.0.0.4/32"], None));
    FullSnapshot {
        peers,
        routes: AdvertisedRoutes { ipv4: list(&["10.7.0.0/16"]), ipv6: Vec::new() },
        amnezia: None,
    }
}

fn lan() -> Lan {
    Lan { enabled: true, nets: vec![Net::V4 { addr: 0xc0a80100, prefix: 24 }] }
}

fn state(peers: &[(&str, &str, u64)]) -> WgState {
    let mut dump = String::from("i\n");
    for (key, endpoint, at) in peers {
        dump.push_str(&format!("{}\t-\t{}\t10.9.9.9/32\t{}\t0\t0\t0\n", key, endpoint, at));
    }
    get_wg_state(&dump)
}

#[test]
fn payload_is_unpacked() {
    let document = b"{\"peers\":{}}".to_vec();
    let packed = zstd::encode_all(&document[..], 3).unwrap();
    let mut last = None;
    assert_eq!(accept_payload(&mut last, &packed), Some(document.clone()));
    assert_eq!(last, Some(blake3::hash(&packed).as_bytes().to_vec()));
    // What is not packed is taken as it is.
    assert_eq!(accept_payload(&mut last, &document), Some(document));
}

#[test]
fn repeated_payload_is_ignored() {
    let mut last = None;
    assert!(accept_payload(&mut last, b"one").is_some());
    assert!(accept_payload(&mut last, b"one").is_none());
    assert!(accept_payload(&mut last, b"two").is_some());
    assert!(accept_payload(&mut last, b"one").is_some());
}

#[test]
fn hashes_are_compared() {
    let mut last = Some(vec![1, 2]);
    assert!(!is_fresh(&mut last, vec![1, 2]));
    assert!(is_fresh(&mut last, vec![1, 3]));
    assert!(is_fresh(&mut last, vec![1]));
    assert_eq!(last, Some(vec![1]));
}

#[test]
fn document_of_a_payload() {
    assert_eq!(unpack(Some(vec![7]), b"raw"), vec![7]);
    assert_eq!(unpack(None, b"raw"), b"raw".to_vec());
}

#[test]
fn complete_state_is_taken_up() {
    let mut applied = AdvertisedRoutes::none();
    let mut registration = RegistrationState::InProgress;
    let mut known = Table::new();
    let mut cache = Some((0, WgState::empty()));
    let setup = handle_full_snapshot(
        "wg0", "me", &snapshot(), true, &mut applied, &mut registration, &mut known, &mut cache,
    )
    .unwrap();
    assert_eq!(setup.routes.additions.len(), 1);
    assert!(setup.amnezia.is_none());
    assert_eq!(
        setup.self_ips,
        Some(("10.0.0.1/32".to_string(), "fd00::1/128".to_string()))
    );
    assert!(registration == RegistrationState::Registered);
    assert_eq!(applied.ipv4, vec!["10.7.0.0/16"]);
    assert_eq!(known.len(), 0);
    assert!(cache.is_some());
    finish_snapshot(&snapshot(), &mut known, &mut cache);
    assert_eq!(known.keys(), vec!["me", "a", "b", "c"]);
    assert!(cache.is_none());
}

#[test]
fn incomplete_state_is_refused() {
    let mut alone = snapshot();
    alone.peers = Table::new();
    alone.peers.insert("me".to_string(), peer(&[], None));
    let mut others = snapshot();
    let _ = others.peers.remove("me");
    for refused in [alone, others] {
        let mut applied = AdvertisedRoutes { ipv4: list(&["10.1.0.0/16"]), ipv6: vec![] };
        let mut registration = RegistrationState::Registered;
        let mut known = Table::new();
        let mut cache = Some((0, WgState::empty()));
        let setup = handle_full_snapshot(
            "wg0", "me", &refused, true, &mut applied, &mut registration, &mut known, &mut cache,
        );
        assert!(setup.is_none());
        assert!(registration == RegistrationState::NotRegistered);
        assert_eq!(applied.ipv4, vec!["10.1.0.0/16"]);
        assert_eq!(known.len(), refused.peers.len());
        assert!(cache.is_none());
    }
}

#[test]
fn obfuscation_is_set_only_with_its_tool() {
    let mut with = snapshot();
    with.amnezia = Some(AmneziaConfig {
        jc: 4, jmin: 40, jmax: 70, s1: 0, s2: 1, h1: 11, h2: 12, h3: 13, h4: 4294967295,
        i1: Some("x".to_string()), i2: Some(String::new()), i3: None, i4: None,
        i5: Some("<b 0x1>".to_string()),
    });
    for awg in [true, false] {
        let setup = handle_full_snapshot(
            "wg0", "me", &with, awg, &mut AdvertisedRoutes::none(),
            &mut RegistrationState::NotRegistered, &mut Table::new(), &mut None,
        )
        .unwrap();
        if awg {
            assert_eq!(
                setup.amnezia.unwrap(),
                vec![
                    "set", "wg0", "jc=4", "jmin=40", "jmax=70", "s1=0", "s2=1", "h1=11", "h2=12",
                    "h3=13", "h4=4294967295", "i1=x", "i5=<b 0x1>"
                ]
            );
        } else {
            assert!(setup.amnezia.is_none());
        }
    }
}

#[test]
fn own_addresses_may_be_missing() {
    let mut bare = snapshot();
    bare.peers.insert("me".to_string(), peer(&["10.0.0.0/8"], None));
    let setup = handle_full_snapshot(
        "wg0", "me", &bare, false, &mut AdvertisedRoutes::none(),
        &mut RegistrationState::NotRegistered, &mut Table::new(), &mut None,
    )
    .unwrap();
    assert!(setup.self_ips.is_none());
}

#[test]
fn every_peer_is_configured_but_the_relayed() {
    let mut bound: Table<String> = Table::new();
    bound.insert("c".to_string(), "r".to_string());
    let s = state(&[("b", "192.168.1.3:5", 1000)]);
    let entries = config_entries(&snapshot(), "me", &bound, &s, &lan(), 1000);
    let keys: Vec<&str> = entries.iter().map(|e| e.0.as_str()).collect();
    assert_eq!(keys, vec!["a", "b"]);
    assert_eq!(entries[0].1.endpoint.as_deref(), Some("203.0.113.1:5"));
    assert_eq!(entries[1].1.endpoint.as_deref(), Some("192.168.1.3:5"));
    assert_eq!(entries[1].1.preshared_key.as_deref(), Some("s"));
}

#[test]
fn peers_with_a_key_are_read() {
    assert_eq!(
        get_peers_with_psk("a\tkey\n\n  b (none)\nc\n d\tother key\n"),
        vec!["a", "d"]
    );
    assert_eq!(get_peers_with_psk("P1\tk\nP2\t(none)\n\nP3\n"), vec!["P1"]);
    assert!(get_peers_with_psk("").is_empty());
}

#[test]
fn key_is_cleared_where_it_is_there_and_wanted() {
    let s = snapshot();
    assert!(psk_clear_due(&s, "a", &Some(list(&["a"]))));
    assert!(!psk_clear_due(&s, "a", &Some(list(&["b"]))));
    // What cannot be read may be there.
    assert!(psk_clear_due(&s, "a", &None));
    assert!(!psk_clear_due(&s, "b", &None));
    assert!(!psk_clear_due(&s, "nobody", &None));
    let mut bare = snapshot();
    bare.peers.insert("a".to_string(), peer(&[], Some("")));
    assert!(!psk_clear_due(&bare, "a", &None));
}

#[test]
fn cleared_peer_keeps_its_local_endpoint() {
    let s = state(&[("a", "192.168.1.2:5", 1000)]);
    let plan = plan_psk_clear("wg0", &snapshot(), "a", &s, &lan(), 1000).unwrap();
    assert!(plan.removal.is_some());
    let update = plan.update.unwrap();
    assert_eq!(update.endpoint.as_deref(), Some("192.168.1.2:5"));
    assert_eq!(update.preshared_key, None);
    assert_eq!(update.allowed_ips, vec!["10.0.0.2/32"]);
    assert!(plan_psk_clear("wg0", &snapshot(), "nobody", &s, &lan(), 1000).is_none());
}

#[test]
fn peers_with_local_endpoints() {
    let found = lan_candidates(&snapshot(), "me");
    assert_eq!(found, vec![("b".to_string(), list(&["192.168.1.3:5"]))]);
    assert!(lan_candidates(&snapshot(), "b").is_empty());
}

#[test]
fn unknown_peers_are_stale() {
    let s = state(&[("a", "-", 0), ("old", "-", 0), ("me", "-", 0), ("older", "-", 0)]);
    assert_eq!(stale_peers(&s, &snapshot(), "me"), vec!["old", "older"]);
}

/// Runs a pass and writes down what it asks for.
fn run(relays: &mut Relays, queue: &mut RetryQueue, fails: &str, with_psk: Option<&[&str]>) -> Vec<String> {
    let snapshot = snapshot();
    let lan = lan();
    let mut pass = SnapshotPass::new(SnapshotScene {
        interface: "wg0",
        local_pubkey: "me",
        snapshot: &snapshot,
        lan: &lan,
    });
    let mut log = Vec::new();
    let mut reply = Reply { ok: true, state: None, with_psk: None };
    while !pass.is_done() {
        let action = apply_snapshot(&mut pass, relays, queue, reply, 1000, 77);
        reply = Reply { ok: true, state: None, with_psk: None };
        match action {
            Some(SnapshotAction::ReadState { fresh }) => {
                log.push(format!("read {}", if fresh { "fresh" } else { "cached" }));
                reply.state = Some(state(&[("a", "-", 0), ("old", "-", 0)]));
            }
            Some(SnapshotAction::Restore { conf }) => {
                log.push(format!("restore {}", conf.matches("[Peer]").count()));
                reply.ok = !fails.contains("restore");
            }
            Some(SnapshotAction::ReadPsk) => {
                log.push("read keys".to_string());
                reply.with_psk = with_psk.map(list);
            }
            Some(SnapshotAction::Apply { plan }) => {
                let update = plan.update.unwrap();
                log.push(format!("apply {} {}", update.pubkey, plan.removal.is_some()));
                reply.ok = !fails.contains("apply");
            }
            Some(SnapshotAction::Switch { pubkey, endpoints }) => {
                log.push(format!("switch {} {}", pubkey, endpoints.join(",")));
            }
            Some(SnapshotAction::RemovePeer { pubkey }) => log.push(format!("remove {}", pubkey)),
            None => {}
        }
    }
    log
}

#[test]
fn pass_restores_clears_switches_and_sweeps() {
    let mut relays = Relays::new();
    relays.bound.insert("old".to_string(), "c".to_string());
    relays.load.insert("c".to_string(), 1);
    let mut queue = RetryQueue::new();
    assert_eq!(
        run(&mut relays, &mut queue, "", Some(&["a"])),
        vec![
            "read cached", "restore 3", "read keys", "read fresh", "apply a true",
            "switch b 192.168.1.3:5", "read fresh", "remove old"
        ]
    );
    assert_eq!(queue.len(), 0);
    assert_eq!(relays.bound.len(), 0);
    assert_eq!(relays.load.get("c"), Some(&0));
}

#[test]
fn pass_skips_keys_that_are_not_there() {
    let log = run(&mut Relays::new(), &mut RetryQueue::new(), "", Some(&["b"]));
    assert!(!log.iter().any(|l| l.starts_with("apply")));
}

#[test]
fn pass_retreats_to_single_peers() {
    let mut queue = RetryQueue::new();
    let log = run(&mut Relays::new(), &mut queue, "restore apply", None);
    assert_eq!(
        log,
        vec![
            "read cached", "restore 3", "read cached", "apply a true", "apply b false",
            "apply c false", "switch b 192.168.1.3:5", "read fresh", "remove old"
        ]
    );
    assert_eq!(queue.len(), 3);
}

#[test]
fn pass_leaves_relayed_peers_alone() {
    let mut relays = Relays::new();
    for key in ["a", "b", "c"] {
        relays.bound.insert(key.to_string(), "r".to_string());
    }
    assert_eq!(
        run(&mut relays, &mut RetryQueue::new(), "", None),
        vec!["read cached", "read keys", "switch b 192.168.1.3:5", "read fresh", "remove old"]
    );
}
