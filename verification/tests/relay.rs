use wg_subscriber::peer::PeerInfo;
use wg_subscriber::relay::{
    add_ips_to_peer, discover_relay, get_last_snapshot, get_original_ips_from_snapshot,
    remove_ips_from_peer, set_allowed_ips,
};
use wg_subscriber::relay_pass::{
    check_and_apply_relay, choose_relay, refresh_pool, RelayAction, RelayPass, Relays, Scene,
};
use wg_subscriber::state::{get_wg_state, WgState};
use wg_subscriber::table::Table;

const V4: &str = "10.254.1.0/24";
const V6: &str = "fd00:1:1::/64";

fn list(items: &[&str]) -> Vec<String> {
    items.iter().map(|s| s.to_string()).collect()
}

fn peer(ips: &[&str]) -> PeerInfo {
    PeerInfo {
        endpoint: None,
        allowed_ips: Some(list(ips)),
        persistent_keepalive: None,
        preshared_key: None,
        local_ips: None,
    }
}

/// Two relays, a peer with addresses, and one without.
fn known() -> Table<PeerInfo> {
    let mut known = Table::new();
    known.insert("r2".to_string(), peer(&["10.0.0.12/32", V4]));
    known.insert("r1".to_string(), peer(&["10.0.0.11/32", V6]));
    known.insert("p".to_string(), peer(&["10.0.0.2/32"]));
    known.insert("bare".to_string(), peer(&[]));
    known
}

/// The peers with the time of their handshake and their addresses.
fn state(peers: &[(&str, u64, &str)]) -> WgState {
    let mut dump = String::from("i\n");
    for (key, at, ips) in peers {
        dump.push_str(&format!("{}\t-\t-\t{}\t{}\t0\t0\t0\n", key, ips, at));
    }
    get_wg_state(&dump)
}

fn lost_p() -> WgState {
    state(&[("r1", 1000, "10.0.0.11/32"), ("r2", 1000, "10.0.0.12/32"), ("p", 0, "10.0.0.2/32")])
}

fn pool_of(s: &WgState, now: u64) -> Vec<String> {
    let mut pool = Vec::new();
    refresh_pool(&mut pool, &known(), s, V4, V6, now);
    pool
}

/// Runs a pass and writes down what it asks for; `fails` names the kinds of
/// commands that go badly.
fn run(relays: &mut Relays, s: &WgState, pool: &Vec<String>, fails: &str, now: u64) -> Vec<String> {
    let known = known();
    let mut pass = RelayPass::new(Scene {
        interface: "wg0",
        local_pubkey: "me",
        state: s,
        pool,
        known: &known,
    });
    let mut log = Vec::new();
    let mut reply = true;
    while !pass.is_done() {
        assert!(relays.is_countable());
        reply = match check_and_apply_relay(&mut pass, relays, reply, now) {
            Some(RelayAction::AddIps { relay, ips }) => {
                log.push(format!("add {} {}", relay, ips.join(",")));
                !fails.contains("add")
            }
            Some(RelayAction::RemoveIps { relay, ips }) => {
                log.push(format!("take {} {}", relay, ips.join(",")));
                true
            }
            Some(RelayAction::RemovePeer { peer }) => {
                log.push(format!("remove {}", peer));
                !fails.contains("remove")
            }
            Some(RelayAction::Restore { plan }) => {
                log.push(format!("restore {}", plan.update.is_some()));
                !fails.contains("restore")
            }
            None => true,
        };
    }
    log
}

#[test]
fn addresses_of_the_full_state() {
    assert_eq!(get_original_ips_from_snapshot(&known(), "p"), vec!["10.0.0.2/32"]);
    assert!(get_original_ips_from_snapshot(&known(), "bare").is_empty());
    assert!(get_original_ips_from_snapshot(&known(), "nobody").is_empty());
}

#[test]
fn last_full_state_has_only_peers() {
    assert!(get_last_snapshot(&Table::new()).is_none());
    let snapshot = get_last_snapshot(&known()).unwrap();
    assert_eq!(snapshot.peers.keys(), vec!["r2", "r1", "p", "bare"]);
    assert!(snapshot.routes.ipv4.is_empty() && snapshot.routes.ipv6.is_empty());
    assert!(snapshot.amnezia.is_none());
}

#[test]
fn pool_is_sorted_and_alive() {
    let snapshot = get_last_snapshot(&known()).unwrap();
    let s = lost_p();
    assert_eq!(discover_relay(&snapshot, &s, V4, V6, 1180), vec!["r1", "r2"]);
    assert!(discover_relay(&snapshot, &s, V4, V6, 1181).is_empty());
    assert_eq!(discover_relay(&snapshot, &s, V4, "x", 1000), vec!["r2"]);
}

#[test]
fn pool_stays_without_a_full_state() {
    let mut pool = list(&["old"]);
    refresh_pool(&mut pool, &Table::new(), &lost_p(), V4, V6, 1000);
    assert_eq!(pool, vec!["old"]);
    refresh_pool(&mut pool, &known(), &lost_p(), V4, V6, 1000);
    assert_eq!(pool, vec!["r1", "r2"]);
}

#[test]
fn addresses_are_added_and_taken() {
    let s = state(&[("r1", 1, "10.0.0.11/32,10.0.0.5/32")]);
    let args = add_ips_to_peer("wg0", "r1", &list(&["10.0.0.2/32", "10.0.0.5/32"]), &s);
    assert_eq!(
        args.ok().unwrap(),
        vec!["set", "wg0", "peer", "r1", "allowed-ips", "10.0.0.11/32,10.0.0.5/32,10.0.0.2/32"]
    );
    let args = remove_ips_from_peer("wg0", "r1", &list(&["10.0.0.11/32", "10.9.9.9/32"]), &s);
    assert_eq!(args.ok().unwrap(), set_allowed_ips("wg0", "r1", &list(&["10.0.0.5/32"])));
    let none = remove_ips_from_peer("wg0", "r1", &list(&["10.0.0.11/32", "10.0.0.5/32"]), &s);
    assert_eq!(none.ok().unwrap().last().unwrap(), "");
}

#[test]
fn taking_undoes_adding() {
    let extra = list(&["10.0.0.2/32", "fd00::2/128"]);
    let before = state(&[("r1", 1, "10.0.0.11/32,10.0.0.5/32")]);
    let added = add_ips_to_peer("wg0", "r1", &extra, &before).ok().unwrap();
    let after = state(&[("r1", 1, added.last().unwrap())]);
    let taken = remove_ips_from_peer("wg0", "r1", &extra, &after).ok().unwrap();
    assert_eq!(taken.last().unwrap(), "10.0.0.11/32,10.0.0.5/32");
}

#[test]
fn relay_that_is_gone_is_an_error() {
    let s = state(&[]);
    assert_eq!(add_ips_to_peer("wg0", "r1", &[], &s).err().unwrap().pubkey, "r1");
    assert_eq!(remove_ips_from_peer("wg0", "r1", &[], &s).err().unwrap().pubkey, "r1");
}

#[test]
fn least_load_is_chosen() {
    let s = lost_p();
    let pool = list(&["r1", "r2"]);
    let mut load: Table<u32> = Table::new();
    assert_eq!(choose_relay(&pool, &load, &s, 1000, None).as_deref(), Some("r1"));
    load.insert("r1".to_string(), 1);
    assert_eq!(choose_relay(&pool, &load, &s, 1000, None).as_deref(), Some("r2"));
    load.insert("r2".to_string(), 1);
    assert_eq!(choose_relay(&pool, &load, &s, 1000, None).as_deref(), Some("r1"));
    assert_eq!(choose_relay(&pool, &load, &s, 1000, Some("r1")).as_deref(), Some("r2"));
    assert_eq!(choose_relay(&pool, &load, &s, 9999, None), None);
}

#[test]
fn lost_peer_is_handed_over_the_second_time() {
    let s = lost_p();
    let pool = pool_of(&s, 1000);
    let mut relays = Relays::new();
    assert!(run(&mut relays, &s, &pool, "", 1000).is_empty());
    assert_eq!(relays.fails.get("p"), Some(&1));
    assert_eq!(run(&mut relays, &s, &pool, "", 1000), vec!["add r1 10.0.0.2/32", "remove p"]);
    assert_eq!(relays.bound.get("p").map(|r| r.as_str()), Some("r1"));
    assert_eq!(relays.load.get("r1"), Some(&1));
    assert_eq!(relays.fails.get("p"), Some(&0));
}

#[test]
fn handover_that_fails_is_undone() {
    let s = lost_p();
    let pool = pool_of(&s, 1000);
    let mut relays = Relays::new();
    run(&mut relays, &s, &pool, "", 1000);
    assert_eq!(run(&mut relays, &s, &pool, "add", 1000), vec!["add r1 10.0.0.2/32"]);
    assert_eq!(
        run(&mut relays, &s, &pool, "remove", 1000),
        vec!["add r1 10.0.0.2/32", "remove p", "take r1 10.0.0.2/32"]
    );
    assert_eq!(relays.bound.len(), 0);
    assert_eq!(relays.load.len(), 0);
    assert_eq!(relays.fails.get("p"), Some(&3));
}

#[test]
fn relay_lost_between_two_steps_gives_back() {
    let s = lost_p();
    let pool = pool_of(&s, 1000);
    let known = known();
    let mut relays = Relays::new();
    run(&mut relays, &s, &pool, "", 1000);
    let mut pass = RelayPass::new(Scene {
        interface: "wg0",
        local_pubkey: "me",
        state: &s,
        pool: &pool,
        known: &known,
    });
    let mut action = None;
    while action.is_none() {
        action = check_and_apply_relay(&mut pass, &mut relays, true, 1000);
    }
    assert!(matches!(action, Some(RelayAction::AddIps { .. })));
    let next = check_and_apply_relay(&mut pass, &mut relays, true, 2000);
    assert!(matches!(next, Some(RelayAction::RemoveIps { .. })));
    assert_eq!(relays.bound.len(), 0);
}

#[test]
fn peer_without_addresses_is_not_handed_over() {
    let s = state(&[("r1", 1000, "x"), ("bare", 0, ""), ("me", 0, "")]);
    let pool = list(&["r1"]);
    let mut relays = Relays::new();
    for _ in 0..4 {
        assert!(run(&mut relays, &s, &pool, "", 1000).is_empty());
    }
    assert_eq!(relays.fails.get("bare"), Some(&4));
    assert_eq!(relays.fails.get("me"), None);
    assert_eq!(relays.fails.get("r1"), None);
}

#[test]
fn peer_that_is_back_leaves_its_relay_and_ends_the_pass() {
    let s = state(&[("p", 1000, "10.0.0.2/32"), ("q", 0, ""), ("r1", 1000, "")]);
    let pool = list(&["r1"]);
    let mut relays = Relays::new();
    relays.bound.insert("p".to_string(), "r1".to_string());
    relays.load.insert("r1".to_string(), 1);
    assert_eq!(run(&mut relays, &s, &pool, "", 1000), vec!["take r1 10.0.0.2/32"]);
    assert_eq!(relays.bound.len(), 0);
    assert_eq!(relays.load.get("r1"), Some(&1));
    // "q" stands behind "p" and was not looked at.
    assert_eq!(relays.fails.get("q"), None);
}

#[test]
fn live_peer_starts_counting_anew() {
    let s = state(&[("p", 1000, ""), ("r1", 1000, "")]);
    let mut relays = Relays::new();
    relays.fails.insert("p".to_string(), 7);
    assert!(run(&mut relays, &s, &list(&["r1"]), "", 1000).is_empty());
    assert_eq!(relays.fails.get("p"), Some(&0));
}

#[test]
fn peers_of_a_lost_relay_are_taken_off_it() {
    let s = state(&[("r1", 1000, ""), ("r2", 500, "")]);
    let pool = list(&["r1", "r2"]);
    let mut relays = Relays::new();
    relays.bound.insert("p".to_string(), "r2".to_string());
    relays.load.insert("r2".to_string(), 1);
    assert_eq!(
        run(&mut relays, &s, &pool, "", 1000),
        vec!["take r2 10.0.0.2/32", "add r1 10.0.0.2/32", "take r1 10.0.0.2/32"]
    );
    assert_eq!(relays.load.get("r2"), None);
    // Without another relay there is nowhere to go.
    assert_eq!(run(&mut relays, &s, &list(&["r2"]), "", 1000), vec!["take r2 10.0.0.2/32"]);
}

#[test]
fn load_of_a_lost_relay_without_peers_is_forgotten() {
    let s = state(&[("r2", 500, "")]);
    let mut relays = Relays::new();
    relays.load.insert("r2".to_string(), 4);
    assert!(run(&mut relays, &s, &list(&["r2"]), "", 1000).is_empty());
    assert_eq!(relays.load.get("r2"), None);
}

#[test]
fn without_relays_nothing_happens() {
    let s = lost_p();
    let mut relays = Relays::new();
    assert!(run(&mut relays, &s, &Vec::new(), "", 1000).is_empty());
    assert_eq!(relays.fails.len(), 0);
}

#[test]
fn peer_that_is_gone_is_forgotten_with_its_binding() {
    let mut relays = Relays::new();
    relays.bound.insert("p".to_string(), "r1".to_string());
    relays.load.insert("r1".to_string(), 1);
    relays.fails.insert("p".to_string(), 2);
    relays.fails.insert("q".to_string(), 3);
    relays.forget("p");
    assert_eq!(relays.bound.len(), 0);
    assert_eq!(relays.load.get("r1"), Some(&0));
    assert_eq!(relays.fails.keys(), vec!["q"]);
    // A peer without a relay keeps its count.
    relays.forget("q");
    assert_eq!(relays.fails.get("q"), Some(&3));
}

#[test]
fn full_count_is_noticed() {
    let mut relays = Relays::new();
    assert!(relays.is_countable());
    relays.fails.insert("p".to_string(), u32::MAX);
    assert!(!relays.is_countable());
}
