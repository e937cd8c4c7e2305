use wg_subscriber::foreign::Net;
use wg_subscriber::lan::Lan;
use wg_subscriber::port::{
    check_and_maybe_change_listen_port, listen_port_args, port_change_due, try_change_port,
    PortHistory,
};
use wg_subscriber::state::{get_wg_state, WgState};

const SEC: u64 = 1_000_000_000;

fn lan() -> Lan {
    Lan { enabled: true, nets: vec![Net::V4 { addr: 0xc0a80100, prefix: 24 }] }
}

/// A peer with that endpoint and a handshake at 1000.
fn state(endpoint: &str) -> WgState {
    get_wg_state(&format!("i\nk\t-\t{}\t\t1000\t0\t0\t0\n", endpoint))
}

#[test]
fn lost_network_is_reason_enough() {
    let mut history = PortHistory::new();
    assert!(port_change_due(false, &state("8.8.8.8:1"), &lan(), &mut history, 1181, SEC));
    assert!(!port_change_due(false, &state("8.8.8.8:1"), &lan(), &mut history, 1180, SEC));
    assert!(!port_change_due(false, &state("192.168.1.2:1"), &lan(), &mut history, 9999, SEC));
    assert!(!port_change_due(false, &WgState::empty(), &lan(), &mut history, 9999, SEC));
}

#[test]
fn force_needs_only_peers() {
    let mut history = PortHistory::new();
    assert!(port_change_due(true, &state("192.168.1.2:1"), &lan(), &mut history, 1000, SEC));
    assert!(!port_change_due(true, &WgState::empty(), &lan(), &mut history, 1000, SEC));
}

#[test]
fn changes_are_limited() {
    let s = state("8.8.8.8:1");
    let mut history = PortHistory::new();
    let mut changes = Vec::new();
    for minute in 0..300u64 {
        let now = minute * 60 * SEC;
        if port_change_due(true, &s, &lan(), &mut history, 0, now) {
            history.record(now);
            changes.push(minute);
        }
    }
    // A change every twenty minutes, but the fourth only once the first no
    // longer counts.
    assert_eq!(&changes[..6], &[0, 20, 40, 61, 81, 101]);
    for pair in changes.windows(2) {
        assert!(pair[1] - pair[0] >= 20);
    }
}

#[test]
fn history_is_pruned_only_with_reason() {
    let mut history = PortHistory::new();
    history.record(0);
    let late = 3601 * SEC;
    assert!(!port_change_due(true, &WgState::empty(), &lan(), &mut history, 0, late));
    assert_eq!(history.times.len(), 1);
    assert!(port_change_due(true, &state("8.8.8.8:1"), &lan(), &mut history, 0, late));
    assert_eq!(history.times.len(), 0);
}

#[test]
fn new_port_is_drawn_from_the_range() {
    let mut history = PortHistory::new();
    let s = state("8.8.8.8:1");
    for _ in 0..50 {
        let port = try_change_port(true, &s, &lan(), &mut history, 2000, 2003, 0, 0).unwrap();
        assert!((2000..=2003).contains(&port));
    }
    assert_eq!(try_change_port(true, &s, &lan(), &mut history, 7, 7, 0, 0), Some(7));
    assert_eq!(try_change_port(true, &WgState::empty(), &lan(), &mut history, 7, 7, 0, 0), None);
}

#[test]
fn check_never_forces() {
    let mut history = PortHistory::new();
    let s = state("8.8.8.8:1");
    assert_eq!(
        check_and_maybe_change_listen_port(&s, &lan(), &mut history, 7, 7, 1000, 0),
        None
    );
    assert_eq!(
        check_and_maybe_change_listen_port(&s, &lan(), &mut history, 7, 7, 2000, 0),
        Some(7)
    );
}

#[test]
fn port_arguments() {
    assert_eq!(listen_port_args("wg0", 51820), vec!["set", "wg0", "listen-port", "51820"]);
    assert_eq!(listen_port_args("wg0", 0), vec!["set", "wg0", "listen-port", "0"]);
}
