//! Reports of the traffic of each peer.
use vstd::prelude::*;

use crate::list::put;
use crate::state::{PeerStateModel, WgState, WgStateModel};
use crate::table::{Entries, Table};
use crate::text::{concat2, Text};

verus! {

/// What is reported of a peer: the bytes since the last report, and in all.
pub struct TrafficRow {
    pub pubkey: String,
    pub rx_bytes: u64,
    pub tx_bytes: u64,
    pub rx_total: u64,
    pub tx_total: u64,
}

/// What a `TrafficRow` says.
#[verifier::ext_equal]
pub struct RowModel {
    pub pubkey: Text,
    pub rx_bytes: u64,
    pub tx_bytes: u64,
    pub rx_total: u64,
    pub tx_total: u64,
}

impl DeepView for TrafficRow {
    type V = RowModel;

    open spec fn deep_view(&self) -> RowModel {
        RowModel {
            pubkey: self.pubkey@,
            rx_bytes: self.rx_bytes,
            tx_bytes: self.tx_bytes,
            rx_total: self.rx_total,
            tx_total: self.tx_total,
        }
    }
}

/// The growth of a counter since it was last read. One that has become smaller
/// started anew, and all of it is growth.
pub open spec fn growth(total: u64, last: u64) -> u64 {
    if total >= last {
        (total - last) as u64
    } else {
        total
    }
}

/// What was last read of a peer: zero for one that is new.
pub open spec fn last_read(seen: Entries<(u64, u64)>, pubkey: Text) -> (u64, u64) {
    match seen.get(pubkey) {
        Some(totals) => totals,
        None => (0, 0),
    }
}

/// What is reported of a peer.
pub open spec fn row_of(seen: Entries<(u64, u64)>, pubkey: Text, peer: PeerStateModel) -> RowModel {
    RowModel {
        pubkey,
        rx_bytes: growth(peer.transfer_rx, last_read(seen, pubkey).0),
        tx_bytes: growth(peer.transfer_tx, last_read(seen, pubkey).1),
        rx_total: peer.transfer_rx,
        tx_total: peer.transfer_tx,
    }
}

/// The report: a row for every peer.
pub open spec fn rows_of(seen: Entries<(u64, u64)>, state: WgStateModel) -> Seq<RowModel> {
    state.peers.keys.map_values(|pubkey: Text| row_of(seen, pubkey, state.peers.map[pubkey]))
}

/// The counters of all peers that are there.
pub open spec fn totals_of(state: WgStateModel) -> Entries<(u64, u64)> {
    Entries {
        keys: state.peers.keys,
        map: Map::new(
            |k: Text| state.peers.has(k),
            |k: Text| (state.peers.map[k].transfer_rx, state.peers.map[k].transfer_tx),
        ),
    }
}

/// The growth of a counter since it was last read.
pub fn increment(total: u64, last: u64) -> (n: u64)
    ensures
        n == growth(total, last),
{
    if total >= last {
        total - last
    } else {
        total
    }
}

/// The report on all peers, a row for each. `seen` holds the counters at the
/// last report, and from here on those of this one; a peer that is gone is
/// forgotten.
pub fn try_report_traffic(seen: &mut Table<(u64, u64)>, state: &WgState) -> (rows: Vec<TrafficRow>)
    ensures
        rows.deep_view() == rows_of(old(seen).deep_view(), state.deep_view()),
        final(seen).deep_view() == totals_of(state.deep_view()),
{
    let ghost before = seen.deep_view();
    let ghost model = state.deep_view();
    let ghost peers = model.peers;
    let mut rows: Vec<TrafficRow> = Vec::new();
    let mut totals: Table<(u64, u64)> = Table::new();
    let mut i: usize = 0;
    let n: usize = state.peers.len();
    assert(peers.keys.take(0) == Seq::<Text>::empty());
    while i < n
        invariant
            i <= n == peers.keys.len(),
            peers == state.peers.deep_view(),
            model == state.deep_view(),
            peers.valid(),
            before == seen.deep_view(),
            rows.deep_view() == rows_of(before, model).take(i as int),
            totals.deep_view().keys == peers.keys.take(i as int),
            totals.deep_view().valid(),
            forall|j: int|
                #![trigger peers.keys[j]]
                0 <= j < i ==> totals.deep_view().has(peers.keys[j])
                    && totals.deep_view().map[peers.keys[j]] == (
                    peers.map[peers.keys[j]].transfer_rx,
                    peers.map[peers.keys[j]].transfer_tx,
                ),
        decreases n - i,
    {
        let ghost key = peers.keys[i as int];
        let pubkey = state.peers.key_at(i);
        let peer = state.peers.value_at(i);
        let (last_rx, last_tx): (u64, u64) = match seen.get(pubkey.as_str()) {
            Some(totals) => (totals.0, totals.1),
            None => (0, 0),
        };
        let row = TrafficRow {
            pubkey: pubkey.clone(),
            rx_bytes: increment(peer.transfer_rx, last_rx),
            tx_bytes: increment(peer.transfer_tx, last_tx),
            rx_total: peer.transfer_rx,
            tx_total: peer.transfer_tx,
        };
        assert(row.deep_view() == row_of(before, key, peers.map[key]));
        put(&mut rows, row);
        proof {
            assert(rows_of(before, model)[i as int] == row_of(before, key, peers.map[key]));
            assert(!totals.deep_view().has(key)) by {
                if totals.deep_view().keys.contains(key) {
                    let j = choose|j: int|
                        0 <= j < totals.deep_view().keys.len() && totals.deep_view().keys[j] == key;
                    assert(peers.keys[j] == key);
                }
            }
            assert(peers.keys.take(i + 1) == peers.keys.take(i as int).push(key));
        }
        totals.insert(pubkey.clone(), (peer.transfer_rx, peer.transfer_tx));
        i = i + 1;
    }
    proof {
        assert(peers.keys.take(i as int) == peers.keys);
        assert(rows_of(before, model).take(i as int) == rows_of(before, model));
        let held = totals.deep_view();
        assert forall|k: Text| held.map.contains_key(k) <==> totals_of(
            model,
        ).map.contains_key(k) by {
            assert(held.keys.contains(k) <==> peers.keys.contains(k));
        }
        assert forall|k: Text| held.map.contains_key(k) implies held.map[k] == totals_of(
            model,
        ).map[k] by {
            assert(peers.keys.contains(k));
            let j = choose|j: int| 0 <= j < peers.keys.len() && peers.keys[j] == k;
            assert(peers.keys[j] == k);
        }
        assert(held.map =~= totals_of(model).map);
    }
    *seen = totals;
    rows
}

/// The topic of the reports.
pub open spec fn report_topic(interface: Text) -> Text {
    "wg/"@ + interface + "/traffic"@
}

/// The topic of the reports.
pub fn traffic_topic(interface: &str) -> (topic: String)
    ensures
        topic@ == report_topic(interface@),
{
    let front = concat2("wg/", interface);
    concat2(front.as_str(), "/traffic")
}

// ---------- what holds of the reports ----------

/// Every peer is reported, with its totals and nothing left out.
pub proof fn law_every_peer_is_reported(seen: Entries<(u64, u64)>, state: WgStateModel, i: int)
    requires
        0 <= i < state.peers.keys.len(),
    ensures
        rows_of(seen, state).len() == state.peers.keys.len(),
        ({
            let pubkey = state.peers.keys[i];
            let row = rows_of(seen, state)[i];
            &&& row.pubkey == pubkey
            &&& row.rx_total == state.peers.map[pubkey].transfer_rx
            &&& row.tx_total == state.peers.map[pubkey].transfer_tx
            &&& row.rx_bytes == growth(row.rx_total, last_read(seen, pubkey).0)
            &&& row.tx_bytes == growth(row.tx_total, last_read(seen, pubkey).1)
        }),
{
}

/// While a counter only grows, the reported bytes add up to it: what is
/// reported is what it has gained since the report before.
pub proof fn law_reports_add_up(seen: Entries<(u64, u64)>, pubkey: Text, peer: PeerStateModel)
    requires
        peer.transfer_rx >= last_read(seen, pubkey).0,
        peer.transfer_tx >= last_read(seen, pubkey).1,
    ensures
        last_read(seen, pubkey).0 + row_of(seen, pubkey, peer).rx_bytes == peer.transfer_rx,
        last_read(seen, pubkey).1 + row_of(seen, pubkey, peer).tx_bytes == peer.transfer_tx,
{
}

/// A second report on the same counters reports no growth.
pub proof fn law_nothing_is_reported_twice(state: WgStateModel, pubkey: Text)
    requires
        state.peers.has(pubkey),
    ensures
        row_of(totals_of(state), pubkey, state.peers.map[pubkey]).rx_bytes == 0,
        row_of(totals_of(state), pubkey, state.peers.map[pubkey]).tx_bytes == 0,
{
}

/// No counter reports more than it shows, also when it started anew.
pub proof fn law_growth_is_bounded(total: u64, last: u64)
    ensures
        growth(total, last) <= total,
{
}

/// What is reported in all of a counter that showed those totals, one report
/// after the other.
pub open spec fn reported(totals: Seq<u64>) -> nat
    decreases totals.len(),
{
    if totals.len() == 0 {
        0
    } else {
        let front = totals.drop_last();
        let last: u64 = if front.len() == 0 {
            0
        } else {
            front.last()
        };
        reported(front) + growth(totals.last(), last) as nat
    }
}

/// Over any number of reports, what is reported of a counter that only grows
/// adds up to what it shows in the end.
pub proof fn law_all_reports_add_up(totals: Seq<u64>)
    requires
        totals.len() > 0,
        forall|i: int, j: int|
            0 <= i <= j < totals.len() ==> #[trigger] totals[i] <= #[trigger] totals[j],
    ensures
        reported(totals) == totals.last(),
    decreases totals.len(),
{
    let front = totals.drop_last();
    if front.len() > 0 {
        assert forall|i: int, j: int| 0 <= i <= j < front.len() implies #[trigger] front[i]
            <= #[trigger] front[j] by {
            assert(totals[i] <= totals[j]);
        }
        law_all_reports_add_up(front);
        assert(totals[front.len() - 1] <= totals[front.len() as int]);
    } else {
        assert(reported(front) == 0);
    }
}

/// What is reported of a counter is what it has gained since it was last read;
/// one that shows less than before started anew, and all it shows is gain. A
/// peer that was not there before has gained all that it shows.
pub proof fn law_gain_is_reported(
    seen: Entries<(u64, u64)>,
    pubkey: Text,
    peer: PeerStateModel,
    last: (u64, u64),
)
    ensures
        ({
            let row = row_of(seen, pubkey, peer);
            &&& row.pubkey == pubkey
            &&& row.rx_total == peer.transfer_rx
            &&& row.tx_total == peer.transfer_tx
            &&& seen.get(pubkey) == Some(last) ==> {
                &&& peer.transfer_rx >= last.0 ==> last.0 + row.rx_bytes == peer.transfer_rx
                &&& peer.transfer_rx < last.0 ==> row.rx_bytes == peer.transfer_rx
                &&& peer.transfer_tx >= last.1 ==> last.1 + row.tx_bytes == peer.transfer_tx
                &&& peer.transfer_tx < last.1 ==> row.tx_bytes == peer.transfer_tx
            }
            &&& seen.get(pubkey) is None ==> row.rx_bytes == peer.transfer_rx && row.tx_bytes
                == peer.transfer_tx
        }),
{
}

/// What is kept for the next report are the counters of the peers that are
/// there, and of no other.
pub proof fn law_counters_are_kept(state: WgStateModel, pubkey: Text)
    ensures
        state.peers.has(pubkey) ==> totals_of(state).get(pubkey) == Some(
            (state.peers.map[pubkey].transfer_rx, state.peers.map[pubkey].transfer_tx),
        ),
        !state.peers.has(pubkey) ==> totals_of(state).get(pubkey) is None,
        totals_of(state).keys == state.peers.keys,
{
}

/// The topic of the reports names the interface.
pub proof fn law_topic_names_the_interface(interface: Text)
    ensures
        ({
            let topic = report_topic(interface);
            &&& topic.take(3) == "wg/"@
            &&& topic.subrange(3, 3 + interface.len() as int) == interface
            &&& topic.skip(3 + interface.len() as int) == "/traffic"@
        }),
{
    reveal_strlit("wg/");
    let topic = report_topic(interface);
    assert(topic.take(3) == "wg/"@);
    assert(topic.subrange(3, 3 + interface.len() as int) == interface);
    assert(topic.skip(3 + interface.len() as int) == "/traffic"@);
}

} // verus!
