use wg_subscriber::delta::{
    after_change, apply_removal, handle_delta_message, needs_full_state, plan_change, read_delta,
    Delta, DeltaFields, PeerChange,
};
use wg_subscriber::foreign::Net;
use wg_subscriber::lan::Lan;
use wg_subscriber::relay_pass::Relays;
use wg_subscriber::retry::{process_retry_queue, RetryQueue};
use wg_subscriber::state::{get_wg_state, WgState};

const SEC: u64 = 1_000_000_000;

fn read(json: &str) -> Delta {
    handle_delta_message(json.as_bytes(), "me")
}

fn change(json: &str) -> PeerChange {
    match read(json) {
        Delta::Change(change) => change,
        _ => panic!("no change in {}", json),
    }
}

fn lan(enabled: bool) -> Lan {
    Lan { enabled, nets: vec![Net::V4 { addr: 0xc0a80100, prefix: 24 }] }
}

fn state(endpoint: &str) -> WgState {
    get_wg_state(&format!("i\nk\t-\t{}\t10.0.0.2/32\t1000\t0\t0\t0\n", endpoint))
}

#[test]
fn addition_is_read() {
    let c = change(
        "{\"action\":\"add\",\"pubkey\":\"k\",\"endpoint\":\"203.0.113.1:5\",\
         \"allowed_ips\":[\"10.0.0.2/32\",7,null,\"fd00::2/128\"],\
         \"persistent_keepalive\":65561,\"preshared_key\":\"s\",\"local_ips\":[\"x\",1]}",
    );
    assert_eq!(c.pubkey, "k");
    assert!(!c.update);
    assert_eq!(c.endpoint.as_deref(), Some("203.0.113.1:5"));
    assert_eq!(c.allowed_ips.unwrap(), vec!["10.0.0.2/32", "fd00::2/128"]);
    // Only the lower sixteen bits count.
    assert_eq!(c.persistent_keepalive, Some(25));
    assert_eq!(c.preshared_key.as_deref(), Some("s"));
    assert_eq!(c.local_ips, vec!["x"]);
}

#[test]
fn update_may_say_little() {
    let c = change(
        "{\"action\":\"update\",\"pubkey\":\"k\",\"endpoint\":null,\"preshared_key\":null,\
         \"persistent_keepalive\":-1,\"allowed_ips\":\"x\"}",
    );
    assert!(c.update);
    assert_eq!(c.endpoint, None);
    assert_eq!(c.allowed_ips, None);
    assert_eq!(c.persistent_keepalive, None);
    assert_eq!(c.preshared_key, None);
    assert!(c.local_ips.is_empty());
}

#[test]
fn other_messages_are_told_apart() {
    assert!(matches!(read("{\"action\":\"remove\",\"pubkey\":\"k\"}"), Delta::Remove(k) if k == "k"));
    assert!(matches!(read("{\"action\":\"set_routes\",\"pubkey\":\"k\"}"), Delta::SetRoutes));
    for nothing in [
        "", "not json", "[]", "{}", "{\"action\":\"add\",\"pubkey\":\"k\"}",
        "{\"action\":\"add\",\"pubkey\":\"\",\"allowed_ips\":[]}",
        "{\"action\":\"remove\",\"pubkey\":\"me\"}", "{\"action\":\"remove\"}",
        "{\"action\":\"set_routes\"}", "{\"action\":\"other\",\"pubkey\":\"k\"}",
        "{\"action\":7,\"pubkey\":\"k\"}", "{\"pubkey\":\"k\"}",
    ] {
        assert!(matches!(read(nothing), Delta::Nothing), "{}", nothing);
    }
}

#[test]
fn fields_decide() {
    let fields = |action: &str, pubkey: &str| DeltaFields {
        action: Some(action.to_string()),
        pubkey: Some(pubkey.to_string()),
        endpoint: None,
        allowed_ips: Some(vec![None, Some("10.0.0.2/32".to_string())]),
        persistent_keepalive: Some(65536),
        preshared_key: None,
        local_ips: None,
    };
    match read_delta(fields("add", "k"), "me") {
        Delta::Change(c) => {
            assert_eq!(c.allowed_ips.unwrap(), vec!["10.0.0.2/32"]);
            assert_eq!(c.persistent_keepalive, Some(0));
        }
        _ => panic!(),
    }
    assert!(matches!(read_delta(fields("add", "me"), "me"), Delta::Nothing));
    assert!(matches!(read_delta(fields("remove", "me"), "me"), Delta::Nothing));
}

#[test]
fn update_of_an_unknown_peer_needs_the_full_state() {
    let update = change("{\"action\":\"update\",\"pubkey\":\"k\"}");
    assert!(needs_full_state(&update, &WgState::empty()));
    assert!(!needs_full_state(&update, &state("-")));
    let add = change("{\"action\":\"add\",\"pubkey\":\"k\",\"allowed_ips\":[]}");
    assert!(!needs_full_state(&add, &WgState::empty()));
}

#[test]
fn change_is_planned() {
    let c = change("{\"action\":\"add\",\"pubkey\":\"k\",\"allowed_ips\":[\"10.0.0.2/32\"]}");
    let update = plan_change("wg0", &c, &WgState::empty()).update.unwrap();
    assert_eq!(update.keepalive, Some(25));
    assert_eq!(update.handshake.as_deref(), Some("10.0.0.2"));
}

fn moved(endpoint: &str, current: &str, enabled: bool, now: u64) -> Option<Vec<String>> {
    let c = change(&format!(
        "{{\"action\":\"update\",\"pubkey\":\"k\",\"endpoint\":\"{}\"}}",
        endpoint
    ));
    let mut queue = RetryQueue::new();
    let args =
        after_change("wg0", &c, true, &state(current), &lan(enabled), &mut queue, now, 0);
    assert_eq!(queue.len(), 0);
    args
}

#[test]
fn endpoint_is_set_again_where_it_is_new() {
    let args = Some(vec![
        "set".to_string(),
        "wg0".to_string(),
        "peer".to_string(),
        "k".to_string(),
        "endpoint".to_string(),
        "203.0.113.1:5".to_string(),
    ]);
    assert_eq!(moved("203.0.113.1:5", "198.51.100.1:5", true, 1000), args);
    assert_eq!(moved("203.0.113.1:5", "(none)", true, 1000), args);
    assert_eq!(moved("203.0.113.1:5", "203.0.113.1:5", true, 1000), None);
    // A working local endpoint stands in the way, unless switching is off.
    assert_eq!(moved("203.0.113.1:5", "192.168.1.2:5", true, 1020), None);
    assert_eq!(moved("203.0.113.1:5", "192.168.1.2:5", true, 1021), args);
    assert_eq!(moved("203.0.113.1:5", "192.168.1.2:5", false, 1020), args);
}

#[test]
fn failed_change_waits() {
    let c = change(
        "{\"action\":\"add\",\"pubkey\":\"k\",\"allowed_ips\":[\"10.0.0.2/32\"],\
         \"endpoint\":\"203.0.113.1:5\",\"preshared_key\":\"s\"}",
    );
    let mut queue = RetryQueue::new();
    let args = after_change("wg0", &c, false, &state("-"), &lan(true), &mut queue, 0, SEC);
    assert_eq!(args, None);
    let tried = process_retry_queue(&mut queue, 2 * SEC);
    assert_eq!(tried.len(), 1);
    assert_eq!(tried[0].pubkey, "k");
    assert_eq!(tried[0].endpoint.as_deref(), Some("203.0.113.1:5"));
    assert_eq!(tried[0].preshared_key.as_deref(), Some("s"));
    assert_eq!(tried[0].allowed_ips, Some(vec!["10.0.0.2/32".to_string()]));
}

#[test]
fn removed_peer_is_forgotten() {
    let mut relays = Relays::new();
    relays.bound.insert("k".to_string(), "r".to_string());
    relays.load.insert("r".to_string(), 2);
    let mut cache = Some((0, WgState::empty()));
    let args = apply_removal("wg0", "k", &mut relays, &mut cache);
    assert_eq!(args, vec!["set", "wg0", "peer", "k", "remove"]);
    assert_eq!(relays.bound.len(), 0);
    assert_eq!(relays.load.get("r"), Some(&1));
    assert!(cache.is_none());
}
