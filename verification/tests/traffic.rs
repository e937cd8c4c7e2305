use wg_subscriber::state::{get_wg_state, WgState};
use wg_subscriber::table::Table;
use wg_subscriber::traffic::{increment, traffic_topic, try_report_traffic};

fn state(peers: &[(&str, u64, u64)]) -> WgState {
    let mut dump = String::from("i\n");
    for (key, rx, tx) in peers {
        dump.push_str(&format!("{}\t-\t-\t\t0\t{}\t{}\t0\n", key, rx, tx));
    }
    get_wg_state(&dump)
}

fn report(seen: &mut Table<(u64, u64)>, s: &WgState) -> Vec<(String, u64, u64, u64, u64)> {
    try_report_traffic(seen, s)
        .into_iter()
        .map(|r| (r.pubkey, r.rx_bytes, r.tx_bytes, r.rx_total, r.tx_total))
        .collect()
}

#[test]
fn growth_is_reported() {
    let mut seen = Table::new();
    let first = report(&mut seen, &state(&[("a", 100, 50), ("b", 0, 0)]));
    assert_eq!(
        first,
        vec![("a".to_string(), 100, 50, 100, 50), ("b".to_string(), 0, 0, 0, 0)]
    );
    let second = report(&mut seen, &state(&[("a", 130, 50), ("b", 0, 7)]));
    assert_eq!(
        second,
        vec![("a".to_string(), 30, 0, 130, 50), ("b".to_string(), 0, 7, 0, 7)]
    );
    assert_eq!(seen.get("a"), Some(&(130, 50)));
}

#[test]
fn nothing_is_reported_twice() {
    let mut seen = Table::new();
    let s = state(&[("a", 9, 8)]);
    report(&mut seen, &s);
    assert_eq!(report(&mut seen, &s), vec![("a".to_string(), 0, 0, 9, 8)]);
}

#[test]
fn counter_that_starts_anew_counts_in_full() {
    let mut seen = Table::new();
    report(&mut seen, &state(&[("a", 100, 100)]));
    assert_eq!(
        report(&mut seen, &state(&[("a", 40, 120)])),
        vec![("a".to_string(), 40, 20, 40, 120)]
    );
    assert_eq!(increment(5, 9), 5);
    assert_eq!(increment(9, 5), 4);
    assert_eq!(increment(u64::MAX, 0), u64::MAX);
}

#[test]
fn peer_that_is_gone_is_forgotten() {
    let mut seen = Table::new();
    report(&mut seen, &state(&[("a", 100, 1), ("b", 2, 2)]));
    report(&mut seen, &state(&[("b", 2, 2)]));
    assert_eq!(seen.keys(), vec!["b"]);
    assert_eq!(
        report(&mut seen, &state(&[("a", 100, 1)])),
        vec![("a".to_string(), 100, 1, 100, 1)]
    );
}

#[test]
fn silent_peers_are_reported_too() {
    let mut seen = Table::new();
    assert_eq!(
        report(&mut seen, &state(&[("a", 0, 0)])),
        vec![("a".to_string(), 0, 0, 0, 0)]
    );
    assert!(report(&mut seen, &state(&[])).is_empty());
}

#[test]
fn all_reports_add_up() {
    let mut seen = Table::new();
    let mut sum = 0;
    for total in [0, 5, 5, 17, 40] {
        sum += report(&mut seen, &state(&[("a", total, 0)]))[0].1;
    }
    assert_eq!(sum, 40);
}

#[test]
fn topic_of_the_reports() {
    assert_eq!(traffic_topic("wg0"), "wg/wg0/traffic");
}
