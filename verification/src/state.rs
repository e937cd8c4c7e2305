//! The state of the WireGuard interface, as `wg show <interface> dump` reports it.
use vstd::prelude::*;

use crate::clock::{elapsed, has_elapsed, NANOS_PER_SEC};
use crate::list::{copied, put};
use crate::table::{Duplicate, Entries, Table};
use crate::text::{
    before_first, decimal, head, is_blank, is_space, joined, law_lines, law_number_reads_decimal,
    law_split, law_split_undoes_join, law_trimmed, lemma_filter_all, lemma_filter_push,
    lemma_joined_ends, lines, lines_of, number, parse_u16, parse_u64, split, split_at, trim,
    trimmed, Text,
};

verus! {

/// The port that counts as listened on where the dump names none that can be read.
pub const DEFAULT_LISTEN_PORT: u16 = 51822;

/// One peer of the interface.
pub struct PeerState {
    pub endpoint: Option<String>,
    pub allowed_ips: Vec<String>,
    pub latest_handshake: Option<u64>,
    pub transfer_rx: u64,
    pub transfer_tx: u64,
}

/// What a `PeerState` says.
#[verifier::ext_equal]
pub struct PeerStateModel {
    pub endpoint: Option<Text>,
    pub allowed_ips: Seq<Text>,
    pub latest_handshake: Option<u64>,
    pub transfer_rx: u64,
    pub transfer_tx: u64,
}

impl DeepView for PeerState {
    type V = PeerStateModel;

    open spec fn deep_view(&self) -> PeerStateModel {
        PeerStateModel {
            endpoint: self.endpoint.deep_view(),
            allowed_ips: self.allowed_ips.deep_view(),
            latest_handshake: self.latest_handshake,
            transfer_rx: self.transfer_rx,
            transfer_tx: self.transfer_tx,
        }
    }
}

impl Duplicate for PeerState {
    fn duplicate(&self) -> (copy: Self) {
        PeerState {
            endpoint: copied_option(&self.endpoint),
            allowed_ips: copied(&self.allowed_ips),
            latest_handshake: self.latest_handshake,
            transfer_rx: self.transfer_rx,
            transfer_tx: self.transfer_tx,
        }
    }
}

/// The string, copied, where there is one.
pub fn copied_option(s: &Option<String>) -> (copy: Option<String>)
    ensures
        copy.deep_view() == s.deep_view(),
{
    match s {
        Some(t) => Some(t.clone()),
        None => None,
    }
}

/// The interface: its port and its peers by public key.
pub struct WgState {
    pub listen_port: u16,
    pub peers: Table<PeerState>,
}

/// What a `WgState` says.
#[verifier::ext_equal]
pub struct WgStateModel {
    pub listen_port: u16,
    pub peers: Entries<PeerStateModel>,
}

impl DeepView for WgState {
    type V = WgStateModel;

    open spec fn deep_view(&self) -> WgStateModel {
        WgStateModel { listen_port: self.listen_port, peers: self.peers.deep_view() }
    }
}

impl Duplicate for WgState {
    fn duplicate(&self) -> (copy: Self) {
        WgState { listen_port: self.listen_port, peers: self.peers.duplicate() }
    }
}

impl WgState {
    /// What is taken for the state where none could be read: no port, no peer.
    pub open spec fn nothing() -> WgStateModel {
        WgStateModel { listen_port: 0, peers: Entries::none() }
    }

    /// A state with no port and no peer.
    pub fn empty() -> (state: WgState)
        ensures
            state.deep_view() == Self::nothing(),
    {
        WgState { listen_port: 0, peers: Table::new() }
    }
}

// ---------- reading the dump ----------

/// The port that the first line of a dump names, in its third column.
pub open spec fn dumped_port(line: Text) -> u16 {
    let columns = split_at(line, '\t');
    if columns.len() >= 3 {
        match number(columns[2], u16::MAX as nat) {
            Some(n) => n as u16,
            None => DEFAULT_LISTEN_PORT,
        }
    } else {
        0
    }
}

/// The parts between commas that are not empty.
pub open spec fn listed(s: Text) -> Seq<Text> {
    split_at(s, ',').filter(|p: Text| p.len() > 0)
}

/// The count in a column: zero where it holds no number.
pub open spec fn counter(s: Text) -> u64 {
    match number(s, u64::MAX as nat) {
        Some(n) => n as u64,
        None => 0,
    }
}

/// The peer that a further line of a dump describes: its public key and state.
/// Blank lines and lines of fewer than eight columns describe none.
pub open spec fn dumped_peer(line: Text) -> Option<(Text, PeerStateModel)> {
    let columns = split_at(trimmed(line), '\t');
    if trimmed(line).len() == 0 || columns.len() < 8 {
        None
    } else {
        Some(
            (
                columns[0],
                PeerStateModel {
                    endpoint: if columns[2] == "(none)"@ || columns[2].len() == 0 {
                        None
                    } else {
                        Some(columns[2])
                    },
                    allowed_ips: listed(columns[3]),
                    latest_handshake: if columns[4] == "0"@ {
                        None
                    } else {
                        match number(columns[4], u64::MAX as nat) {
                            Some(n) => Some(n as u64),
                            None => None,
                        }
                    },
                    transfer_rx: counter(columns[5]),
                    transfer_tx: counter(columns[6]),
                },
            ),
        )
    }
}

/// The peers that the lines describe: of two lines with one public key the
/// later counts.
pub open spec fn dumped_peers(rows: Seq<Text>) -> Entries<PeerStateModel>
    decreases rows.len(),
{
    if rows.len() == 0 {
        Entries::none()
    } else {
        let before = dumped_peers(rows.drop_last());
        match dumped_peer(rows.last()) {
            Some((pubkey, peer)) => before.insert(pubkey, peer),
            None => before,
        }
    }
}

/// The state that a dump reports: the interface on the first line, a peer on
/// each of the others.
pub open spec fn dumped_state(dump: Text) -> WgStateModel {
    let rows = lines_of(dump);
    if rows.len() == 0 {
        WgState::nothing()
    } else {
        WgStateModel { listen_port: dumped_port(rows[0]), peers: dumped_peers(rows.skip(1)) }
    }
}

/// The parts of `s` between commas that are not empty.
fn split_list(s: &str) -> (parts: Vec<String>)
    ensures
        parts.deep_view() == listed(s@),
{
    let all = split(s, ',');
    let ghost model = all.deep_view();
    let ghost kept = |p: Text| p.len() > 0;
    let mut parts: Vec<String> = Vec::new();
    let mut i: usize = 0;
    proof {
        assert(model.take(0) == Seq::<Text>::empty());
        reveal(Seq::filter);
    }
    while i < all.len()
        invariant
            i <= all@.len(),
            model == all.deep_view(),
            kept == (|p: Text| p.len() > 0),
            parts.deep_view() == model.take(i as int).filter(kept),
        decreases all@.len() - i,
    {
        proof {
            assert(model[i as int] == all@[i as int]@);
            assert(model.take(i + 1) == model.take(i as int).push(model[i as int]));
            lemma_filter_push(model.take(i as int), kept, model[i as int]);
        }
        if !all[i].as_str().is_empty() {
            put(&mut parts, all[i].clone());
        }
        i = i + 1;
    }
    assert(model.take(i as int) == model);
    parts
}

/// The peer that a line describes.
fn read_peer(line: &str) -> (peer: Option<(String, PeerState)>)
    ensures
        peer.deep_view() == dumped_peer(line@),
{
    let line = trim(line);
    let columns = split(line.as_str(), '\t');
    if line.as_str().is_empty() || columns.len() < 8 {
        return None;
    }
    let ghost model = columns.deep_view();
    assert(forall|i: int| 0 <= i < columns@.len() ==> model[i] == (#[trigger] columns@[i])@);
    let endpoint = if columns[2].as_str().eq("(none)") || columns[2].as_str().is_empty() {
        None
    } else {
        Some(columns[2].clone())
    };
    let latest_handshake = if columns[4].as_str().eq("0") {
        None
    } else {
        parse_u64(columns[4].as_str())
    };
    Some(
        (
            columns[0].clone(),
            PeerState {
                endpoint,
                allowed_ips: split_list(columns[3].as_str()),
                latest_handshake,
                transfer_rx: parse_u64(columns[5].as_str()).unwrap_or(0),
                transfer_tx: parse_u64(columns[6].as_str()).unwrap_or(0),
            },
        ),
    )
}

/// The state that the dump of an interface reports.
pub fn get_wg_state(dump: &str) -> (state: WgState)
    ensures
        state.deep_view() == dumped_state(dump@),
{
    let rows = lines(dump);
    let ghost model = rows.deep_view();
    assert(forall|i: int| 0 <= i < rows@.len() ==> model[i] == (#[trigger] rows@[i])@);
    if rows.len() == 0 {
        return WgState::empty();
    }
    let columns = split(rows[0].as_str(), '\t');
    let listen_port: u16 = if columns.len() >= 3 {
        assert(columns.deep_view()[2] == columns@[2]@);
        parse_u16(columns[2].as_str()).unwrap_or(DEFAULT_LISTEN_PORT)
    } else {
        0
    };
    let mut peers: Table<PeerState> = Table::new();
    let mut i: usize = 1;
    assert(model.skip(1).take(0) == Seq::<Text>::empty());
    while i < rows.len()
        invariant
            1 <= i <= rows@.len(),
            model == rows.deep_view(),
            peers.deep_view() == dumped_peers(model.skip(1).take(i - 1)),
        decreases rows@.len() - i,
    {
        proof {
            assert(model[i as int] == rows@[i as int]@);
            let rest = model.skip(1);
            assert(rest.take(i as int).drop_last() == rest.take(i - 1));
            assert(rest.take(i as int).last() == model[i as int]);
        }
        match read_peer(rows[i].as_str()) {
            Some((pubkey, peer)) => peers.insert(pubkey, peer),
            None => {},
        }
        i = i + 1;
    }
    assert(model.skip(1).take(i - 1) == model.skip(1));
    WgState { listen_port, peers }
}

// ---------- keeping the state for a while ----------

/// The state that is kept, as long as it is younger than `ttl_secs` seconds.
pub open spec fn kept_state(
    cache: Option<(u64, WgStateModel)>,
    ttl_secs: u64,
    now: u64,
) -> Option<WgStateModel> {
    match cache {
        Some((read_at, held)) => if elapsed(read_at, now) < ttl_secs * NANOS_PER_SEC {
            Some(held)
        } else {
            None
        },
        None => None,
    }
}

/// The state that was read at `cache.0`, as long as it is younger than
/// `ttl_secs` seconds at `now`; where there is none, it has to be read anew.
pub fn get_latest_wg_state(cache: &Option<(u64, WgState)>, ttl_secs: u64, now: u64) -> (state:
    Option<WgState>)
    ensures
        state.deep_view() == kept_state(cache.deep_view(), ttl_secs, now),
{
    match cache {
        Some((read_at, held)) => {
            if has_elapsed(*read_at, now, ttl_secs) {
                None
            } else {
                Some(held.duplicate())
            }
        },
        None => None,
    }
}

/// Keeps `state` as the one that was read at `now`.
pub fn remember_wg_state(cache: &mut Option<(u64, WgState)>, state: &WgState, now: u64)
    ensures
        final(cache).deep_view() == Some((now, state.deep_view())),
{
    *cache = Some((now, state.duplicate()));
}

// ---------- looking at the state ----------

/// The public keys of the peers, in the order of the dump.
pub fn get_current_peers(state: &WgState) -> (peers: Vec<String>)
    ensures
        peers.deep_view() == state.deep_view().peers.keys,
        peers.deep_view().no_duplicates(),
        forall|k: Text| peers.deep_view().contains(k) <==> state.deep_view().peers.has(k),
{
    state.peers.keys()
}

/// The endpoint of a peer, where the peer is there and has one.
pub open spec fn endpoint_of(state: WgStateModel, pubkey: Text) -> Option<Text> {
    match state.peers.get(pubkey) {
        Some(peer) => peer.endpoint,
        None => None,
    }
}

/// The endpoint of a peer.
pub fn get_current_endpoint(state: &WgState, pubkey: &str) -> (endpoint: Option<String>)
    ensures
        endpoint.deep_view() == endpoint_of(state.deep_view(), pubkey@),
{
    match state.peers.get(pubkey) {
        Some(peer) => copied_option(&peer.endpoint),
        None => None,
    }
}

/// The peer shook hands at most `max_age_secs` seconds before `now`, or later.
pub open spec fn recent(state: WgStateModel, pubkey: Text, max_age_secs: u64, now: u64) -> bool {
    match state.peers.get(pubkey) {
        Some(peer) => match peer.latest_handshake {
            Some(at) => now - at <= max_age_secs,
            None => false,
        },
        None => false,
    }
}

/// Whether the peer shook hands at most `max_age_secs` seconds before
/// `now_secs`, the time in seconds since the Unix epoch.
pub fn has_recent_handshake(state: &WgState, pubkey: &str, max_age_secs: u64, now_secs: u64) -> (
answer: bool)
    ensures
        answer == recent(state.deep_view(), pubkey@, max_age_secs, now_secs),
{
    match state.peers.get(pubkey) {
        Some(peer) => match peer.latest_handshake {
            Some(at) => now_secs.saturating_sub(at) <= max_age_secs,
            None => false,
        },
        None => false,
    }
}

/// The time of each peer's latest handshake.
pub open spec fn handshakes_of(state: WgStateModel) -> Entries<Option<u64>> {
    Entries {
        keys: state.peers.keys,
        map: state.peers.map.map_values(|peer: PeerStateModel| peer.latest_handshake),
    }
}

/// The time of each peer's latest handshake.
pub fn get_wg_latest_handshakes(state: &WgState) -> (handshakes: Table<Option<u64>>)
    ensures
        handshakes.deep_view() == handshakes_of(state.deep_view()),
{
    let mut handshakes: Table<Option<u64>> = Table::new();
    let ghost model = state.deep_view().peers;
    let mut i: usize = 0;
    let n: usize = state.peers.len();
    proof {
        assert(model.keys.take(0) == Seq::<Text>::empty());
    }
    while i < n
        invariant
            i <= n == model.keys.len(),
            model == state.peers.deep_view(),
            model.valid(),
            handshakes.deep_view().valid(),
            handshakes.deep_view().keys == model.keys.take(i as int),
            forall|k: Text| #[trigger]
                handshakes.deep_view().map.contains_key(k) ==> model.map.contains_key(k)
                    && handshakes.deep_view().map[k] == model.map[k].latest_handshake,
        decreases n - i,
    {
        assert(!model.keys.take(i as int).contains(model.keys[i as int]));
        handshakes.insert(state.peers.key_at(i).clone(), state.peers.value_at(i).latest_handshake);
        assert(model.keys.take(i + 1) == model.keys.take(i as int).push(model.keys[i as int]));
        i = i + 1;
    }
    proof {
        assert(model.keys.take(n as int) == model.keys);
        assert(handshakes.deep_view().map =~= handshakes_of(state.deep_view()).map);
    }
    handshakes
}

/// The peer is not among those of the interface.
pub struct PeerNotFound {
    pub pubkey: String,
}

/// The addresses that go to a peer, or an error that names it where it is not there.
pub fn get_current_allowed_ips(state: &WgState, pubkey: &str) -> (ips: Result<
    Vec<String>,
    PeerNotFound,
>)
    ensures
        match ips {
            Ok(list) => state.deep_view().peers.has(pubkey@) && list.deep_view()
                == state.deep_view().peers.map[pubkey@].allowed_ips,
            Err(e) => !state.deep_view().peers.has(pubkey@) && e.pubkey@ == pubkey@,
        },
{
    match state.peers.get(pubkey) {
        Some(peer) => Ok(copied(&peer.allowed_ips)),
        None => Err(PeerNotFound { pubkey: pubkey.to_owned() }),
    }
}

/// The address in front of the prefix length of the first entry.
pub open spec fn tunnel_ip(allowed_ips: Seq<Text>) -> Option<Text> {
    if allowed_ips.len() > 0 {
        Some(before_first(allowed_ips[0], '/'))
    } else {
        None
    }
}

/// The address under which a peer is reached through the tunnel: that of the
/// first of its allowed addresses.
pub fn first_tunnel_ip(allowed_ips: &[String]) -> (ip: Option<String>)
    ensures
        ip.deep_view() == tunnel_ip(allowed_ips.deep_view()),
{
    if allowed_ips.len() > 0 {
        assert(allowed_ips.deep_view()[0] == allowed_ips@[0]@);
        Some(head(allowed_ips[0].as_str(), '/'))
    } else {
        None
    }
}

// ---------- what holds of the state ----------

/// A handshake counts as recent exactly where the peer is there, has shaken
/// hands, and did so at most so many seconds ago, the last of these included.
pub proof fn law_recent_handshake(state: WgStateModel, pubkey: Text, max_age_secs: u64, now: u64)
    ensures
        recent(state, pubkey, max_age_secs, now) <==> {
            &&& state.peers.has(pubkey)
            &&& state.peers.map[pubkey].latest_handshake matches Some(at)
            &&& at + max_age_secs >= now
        },
{
}

/// A handshake that counts as recent did so at every time before, and does so
/// for every longer time that is allowed.
pub proof fn law_handshakes_age(
    state: WgStateModel,
    pubkey: Text,
    max_age_secs: u64,
    longer: u64,
    now: u64,
    before: u64,
)
    requires
        recent(state, pubkey, max_age_secs, now),
        before <= now,
        longer >= max_age_secs,
    ensures
        recent(state, pubkey, longer, before),
{
}

/// What is looked up of a peer is what the state holds of it, and nothing
/// where the peer is not there.
pub proof fn law_peer_is_looked_up(state: WgStateModel, pubkey: Text)
    ensures
        state.peers.has(pubkey) ==> endpoint_of(state, pubkey) == state.peers.map[pubkey].endpoint,
        !state.peers.has(pubkey) ==> endpoint_of(state, pubkey) is None,
        handshakes_of(state).keys == state.peers.keys,
        state.peers.has(pubkey) ==> handshakes_of(state).get(pubkey) == Some(
            state.peers.map[pubkey].latest_handshake,
        ),
        !state.peers.has(pubkey) ==> handshakes_of(state).get(pubkey) is None,
{
}

/// A peer is reached through the tunnel under the host of its first network,
/// whatever the others are, and under none where it has no network.
pub proof fn law_tunnel_address(host: Text, length: Text, others: Seq<Text>)
    requires
        !host.contains('/'),
    ensures
        tunnel_ip(seq![host + seq!['/'] + length] + others) == Some(host),
        tunnel_ip(seq![host] + others) == Some(host),
        tunnel_ip(Seq::empty()) is None,
{
    law_split(host, '/', length);
    assert((seq![host + seq!['/'] + length] + others)[0] == host + seq!['/'] + length);
    assert((seq![host] + others)[0] == host);
}

/// What was read stays good for its time, and not for longer; the state of
/// another time is of no use.
pub proof fn law_state_is_kept_for_its_time(
    state: WgStateModel,
    read_at: u64,
    ttl_secs: u64,
    now: u64,
)
    requires
        read_at <= now,
    ensures
        now - read_at < ttl_secs * 1_000_000_000 ==> kept_state(
            Some((read_at, state)),
            ttl_secs,
            now,
        ) == Some(state),
        now - read_at >= ttl_secs * 1_000_000_000 ==> kept_state(
            Some((read_at, state)),
            ttl_secs,
            now,
        ) is None,
        kept_state(None, ttl_secs, now) is None,
{
}

/// A row of a dump with its columns between tabs is read as what the columns
/// say: the key, the endpoint if there is one, every address, the time of the
/// handshake if there was one, and both counters.
pub proof fn law_row_reads_back(
    columns: Seq<Text>,
    ips: Seq<Text>,
    handshake: u64,
    rx: u64,
    tx: u64,
)
    requires
        columns.len() >= 8,
        forall|i: int| 0 <= i < columns.len() ==> !(#[trigger] columns[i]).contains('\t'),
        columns[0].len() > 0 && !is_space(columns[0].first()),
        columns.last().len() > 0 && !is_space(columns.last().last()),
        ips.len() > 0,
        forall|i: int|
            0 <= i < ips.len() ==> (#[trigger] ips[i]).len() > 0 && !ips[i].contains(','),
        columns[3] == joined(ips, seq![',']),
        columns[4] == decimal(handshake as nat),
        columns[5] == decimal(rx as nat),
        columns[6] == decimal(tx as nat),
    ensures
        dumped_peer(joined(columns, seq!['\t'])) == Some(
            (
                columns[0],
                PeerStateModel {
                    endpoint: if columns[2].len() == 0 || columns[2] == "(none)"@ {
                        None
                    } else {
                        Some(columns[2])
                    },
                    allowed_ips: ips,
                    latest_handshake: if handshake > 0 {
                        Some(handshake)
                    } else {
                        None
                    },
                    transfer_rx: rx,
                    transfer_tx: tx,
                },
            ),
        ),
{
    let row = joined(columns, seq!['\t']);
    lemma_joined_ends(columns, seq!['\t']);
    law_trimmed(row);
    law_split_undoes_join(columns, '\t');
    law_split_undoes_join(ips, ',');
    lemma_filter_all(ips, |p: Text| p.len() > 0);
    law_number_reads_decimal(handshake as nat, u64::MAX as nat);
    law_number_reads_decimal(rx as nat, u64::MAX as nat);
    law_number_reads_decimal(tx as nat, u64::MAX as nat);
    reveal_strlit("0");
    assert(decimal(0) == "0"@);
    law_number_reads_decimal(0, u64::MAX as nat);
}

/// A row that is blank, or has fewer than eight columns, describes no peer.
pub proof fn law_short_row_is_passed_over(row: Text)
    ensures
        is_blank(row) ==> dumped_peer(row) is None,
        split_at(trimmed(row), '\t').len() < 8 ==> dumped_peer(row) is None,
{
    law_trimmed(row);
}

/// A row describes the peer with that key.
pub open spec fn describes(row: Text, pubkey: Text) -> bool {
    dumped_peer(row) matches Some((k, _)) && k == pubkey
}

/// Every row that describes a peer counts, unless a later one describes the
/// same peer; and no peer comes from nowhere.
pub proof fn law_last_row_counts(rows: Seq<Text>, i: int, pubkey: Text)
    ensures
        0 <= i < rows.len() && describes(rows[i], pubkey) && (forall|j: int|
            i < j < rows.len() ==> !describes(#[trigger] rows[j], pubkey))
            ==> dumped_peers(rows).has(pubkey) && dumped_peer(rows[i]) == Some(
            (pubkey, dumped_peers(rows).map[pubkey]),
        ),
        dumped_peers(rows).has(pubkey) ==> exists|j: int|
            0 <= j < rows.len() && describes(#[trigger] rows[j], pubkey),
    decreases rows.len(),
{
    if rows.len() > 0 {
        let front = rows.drop_last();
        law_last_row_counts(front, i, pubkey);
        let last = rows.len() - 1;
        assert(rows[last] == rows.last());
        if 0 <= i < last && describes(rows[i], pubkey) && (forall|j: int|
            i < j < rows.len() ==> !describes(#[trigger] rows[j], pubkey)) {
            assert forall|j: int| i < j < front.len() implies !describes(
                #[trigger] front[j],
                pubkey,
            ) by {
                assert(front[j] == rows[j]);
            }
            assert(front[i] == rows[i]);
            assert(!describes(rows[last], pubkey));
        }
        if dumped_peers(front).has(pubkey) {
            let j = choose|j: int| 0 <= j < front.len() && describes(#[trigger] front[j], pubkey);
            assert(describes(rows[j], pubkey));
        }
        if describes(rows.last(), pubkey) {
            assert(describes(rows[last], pubkey));
        }
    }
}

/// The first line of a dump names the port in its third column, and the lines
/// behind it the peers. A port that cannot be read counts as 51822, and one
/// that is not named as none.
pub proof fn law_dump_has_a_head(columns: Seq<Text>, rest: Text)
    requires
        columns.len() > 0,
        forall|i: int| 0 <= i < columns.len() ==> !(#[trigger] columns[i]).contains('\t'),
        !joined(columns, seq!['\t']).contains('\n'),
        joined(columns, seq!['\t']).len() > 0,
        joined(columns, seq!['\t']).last() != '\r',
    ensures
        ({
            let state = dumped_state(joined(columns, seq!['\t']) + seq!['\n'] + rest);
            &&& state.peers == dumped_peers(lines_of(rest))
            &&& columns.len() < 3 ==> state.listen_port == 0
            &&& columns.len() >= 3 ==> state.listen_port == match number(columns[2], 65535) {
                Some(port) => port,
                None => 51822,
            }
        }),
        dumped_state(Seq::empty()).peers.keys.len() == 0,
        dumped_state(Seq::empty()).listen_port == 0,
{
    let head = joined(columns, seq!['\t']);
    law_lines(head, rest);
    law_split_undoes_join(columns, '\t');
    let rows = lines_of(head + seq!['\n'] + rest);
    assert(rows[0] == head);
    assert(rows.skip(1) == lines_of(rest));
}

} // verus!
