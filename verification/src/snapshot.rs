//! The full state that the server publishes.
use vstd::prelude::*;

use crate::address::{
    extract_self_ips, is_first_host, is_word, law_first_host_is_the_own, lemma_some_first_host,
    self_ips, single_host,
};
use crate::amnezia::{amnezia_args, apply_amnezia_config, AmneziaConfig, AmneziaModel};
use crate::foreign::{blake3_hash, blake3_of, zstd_content, zstd_decode};
use crate::lan::{preserve_lan_endpoint, preserved_endpoint, Lan, LanModel};
use crate::list::{holds, put};
use crate::peer::{
    add_or_update_peer, clears, copied_list, peer_plan, PeerInfo, PeerInfoModel, PeerPlan,
    PeerPlanModel,
};
use crate::routes::{
    apply_advertised_routes, route_plan, AdvertisedRoutes, RoutePlan, RoutePlanModel, RoutesModel,
};
use crate::session::RegistrationState;
use crate::state::{copied_option, WgState, WgStateModel};
use crate::table::{Duplicate, Entries, Table};
use crate::text::{
    is_space, law_trimmed, law_words, lemma_filter_contains, lemma_filter_push, lines, lines_of,
    split_words, trim, trimmed, words_of, Text,
};

verus! {

/// The full state: all peers by public key, the routes, and the obfuscation
/// settings where there are any.
pub struct FullSnapshot {
    pub peers: Table<PeerInfo>,
    pub routes: AdvertisedRoutes,
    pub amnezia: Option<AmneziaConfig>,
}

/// What a `FullSnapshot` says.
#[verifier::ext_equal]
pub struct SnapshotModel {
    pub peers: Entries<PeerInfoModel>,
    pub routes: RoutesModel,
    pub amnezia: Option<AmneziaModel>,
}

impl DeepView for FullSnapshot {
    type V = SnapshotModel;

    open spec fn deep_view(&self) -> SnapshotModel {
        SnapshotModel {
            peers: self.peers.deep_view(),
            routes: self.routes.deep_view(),
            amnezia: self.amnezia.deep_view(),
        }
    }
}

// ---------- the payload ----------

/// The bytes of the document: what the payload unpacks to, or the payload
/// itself where it does not unpack.
pub open spec fn document(content: Option<Seq<u8>>, payload: Seq<u8>) -> Seq<u8> {
    match content {
        Some(bytes) => bytes,
        None => payload,
    }
}

/// The payload is the one that came last.
pub open spec fn is_repeated(last_hash: Option<Seq<u8>>, hash: Seq<u8>) -> bool {
    last_hash == Some(hash)
}

/// The document of a payload, unless that came last too.
pub open spec fn accepted(last_hash: Option<Seq<u8>>, payload: Seq<u8>) -> Option<Seq<u8>> {
    if is_repeated(last_hash, blake3_of(payload)) {
        None
    } else {
        Some(document(zstd_content(payload), payload))
    }
}

/// Whether two strings of bytes are the same.
fn same_bytes(a: &[u8], b: &[u8]) -> (answer: bool)
    ensures
        answer == (a@ == b@),
{
    if a.len() != b.len() {
        return false;
    }
    let mut i: usize = 0;
    while i < a.len()
        invariant
            i <= a@.len() == b@.len(),
            forall|j: int| 0 <= j < i ==> a@[j] == b@[j],
        decreases a@.len() - i,
    {
        if a[i] != b[i] {
            return false;
        }
        i = i + 1;
    }
    assert(a@ =~= b@);
    true
}

/// Whether a payload with that hash is another one than the last; it is the
/// last one from here on.
pub fn is_fresh(last_hash: &mut Option<Vec<u8>>, hash: Vec<u8>) -> (fresh: bool)
    ensures
        fresh == !is_repeated(old(last_hash).deep_view(), hash@),
        final(last_hash).deep_view() == Some(hash@),
{
    let repeated = match last_hash {
        Some(last) => {
            assert(last.deep_view() =~= last@);
            same_bytes(last, &hash)
        },
        None => false,
    };
    *last_hash = Some(hash);
    !repeated
}

/// The bytes of the document, where `content` is what the payload unpacks to.
pub fn unpack(content: Option<Vec<u8>>, payload: &[u8]) -> (bytes: Vec<u8>)
    ensures
        bytes@ == document(content.deep_view(), payload@),
{
    match content {
        Some(bytes) => {
            assert(bytes.deep_view() =~= bytes@);
            bytes
        },
        None => {
            let mut bytes: Vec<u8> = Vec::new();
            let mut i: usize = 0;
            while i < payload.len()
                invariant
                    i <= payload@.len(),
                    bytes@ == payload@.take(i as int),
                decreases payload@.len() - i,
            {
                bytes.push(payload[i]);
                i = i + 1;
            }
            bytes
        },
    }
}

/// The document of a payload, unless that came last too. `last_hash` is the
/// hash of the payload that came last, and then of this one.
pub fn accept_payload(last_hash: &mut Option<Vec<u8>>, payload: &[u8]) -> (bytes: Option<Vec<u8>>)
    ensures
        bytes.deep_view() == accepted(old(last_hash).deep_view(), payload@),
        final(last_hash).deep_view() == Some(blake3_of(payload@)),
{
    if !is_fresh(last_hash, blake3_hash(payload)) {
        return None;
    }
    let bytes = unpack(zstd_decode(payload), payload);
    assert(bytes.deep_view() =~= bytes@);
    Some(bytes)
}

/// The same payload twice in a row is ignored the second time.
pub proof fn law_repeated_payload_is_ignored(last_hash: Option<Seq<u8>>, payload: Seq<u8>)
    ensures
        accepted(Some(blake3_of(payload)), payload) is None,
        last_hash is None ==> accepted(last_hash, payload) is Some,
{
}

// ---------- the beginning ----------

/// How many peers the full state has at the least.
pub const MIN_PEERS: usize = 2;

/// The full state is complete: it knows this node, and another.
pub open spec fn is_complete(snapshot: SnapshotModel, local_pubkey: Text) -> bool {
    snapshot.peers.has(local_pubkey) && snapshot.peers.keys.len() >= MIN_PEERS
}

/// What is set up before the peers.
pub struct SnapshotSetup {
    pub routes: RoutePlan,
    pub amnezia: Option<Vec<String>>,
    pub self_ips: Option<(String, String)>,
}

/// What a `SnapshotSetup` says.
#[verifier::ext_equal]
pub struct SetupModel {
    pub routes: RoutePlanModel,
    pub amnezia: Option<Seq<Text>>,
    pub self_ips: Option<(Text, Text)>,
}

impl DeepView for SnapshotSetup {
    type V = SetupModel;

    open spec fn deep_view(&self) -> SetupModel {
        SetupModel {
            routes: self.routes.deep_view(),
            amnezia: self.amnezia.deep_view(),
            self_ips: self.self_ips.deep_view(),
        }
    }
}

/// The addresses that this node gets, where the full state gives it any.
pub open spec fn own_ips(snapshot: SnapshotModel, local_pubkey: Text) -> Option<(Text, Text)> {
    match snapshot.peers.get(local_pubkey) {
        Some(peer) => match peer.allowed_ips {
            Some(ips) => if self_ips(ips).0.len() > 0 || self_ips(ips).1.len() > 0 {
                Some(self_ips(ips))
            } else {
                None
            },
            None => None,
        },
        None => None,
    }
}

/// What is set up before the peers: the routes, the obfuscation where `awg` is
/// used and the full state has settings for it, and the own addresses.
pub open spec fn setup_of(
    interface: Text,
    local_pubkey: Text,
    snapshot: SnapshotModel,
    awg: bool,
    applied: RoutesModel,
) -> SetupModel {
    SetupModel {
        routes: route_plan(interface, snapshot.routes, applied),
        amnezia: match snapshot.amnezia {
            Some(config) => if awg {
                Some(amnezia_args(interface, config))
            } else {
                None
            },
            None => None,
        },
        self_ips: own_ips(snapshot, local_pubkey),
    }
}

/// The addresses that this node gets.
fn read_own_ips(snapshot: &FullSnapshot, local_pubkey: &str) -> (ips: Option<(String, String)>)
    ensures
        ips.deep_view() == own_ips(snapshot.deep_view(), local_pubkey@),
{
    match snapshot.peers.get(local_pubkey) {
        Some(peer) => match &peer.allowed_ips {
            Some(allowed) => {
                let (ipv4, ipv6) = extract_self_ips(allowed);
                if !ipv4.as_str().is_empty() || !ipv6.as_str().is_empty() {
                    Some((ipv4, ipv6))
                } else {
                    None
                }
            },
            None => None,
        },
        None => None,
    }
}

/// Takes a full state up. One that is not complete is refused: then this node
/// counts as not registered, the peers are remembered, and the interface has to
/// be read anew. Else this node counts as registered, and the result says what
/// to set up before the peers.
pub fn handle_full_snapshot(
    interface: &str,
    local_pubkey: &str,
    snapshot: &FullSnapshot,
    awg: bool,
    applied: &mut AdvertisedRoutes,
    registration: &mut RegistrationState,
    known: &mut Table<PeerInfo>,
    cache: &mut Option<(u64, WgState)>,
) -> (setup: Option<SnapshotSetup>)
    ensures
        is_complete(snapshot.deep_view(), local_pubkey@) ==> {
            &&& setup.deep_view() == Some(
                setup_of(
                    interface@,
                    local_pubkey@,
                    snapshot.deep_view(),
                    awg,
                    old(applied).deep_view(),
                ),
            )
            &&& final(applied).deep_view() == snapshot.deep_view().routes.once()
            &&& *final(registration) == RegistrationState::Registered
            &&& final(known).deep_view() == old(known).deep_view()
            &&& *final(cache) == *old(cache)
        },
        !is_complete(snapshot.deep_view(), local_pubkey@) ==> {
            &&& setup is None
            &&& final(applied).deep_view() == old(applied).deep_view()
            &&& *final(registration) == RegistrationState::NotRegistered
            &&& final(known).deep_view() == snapshot.deep_view().peers
            &&& *final(cache) is None
        },
{
    if !snapshot.peers.contains_key(local_pubkey) || snapshot.peers.len() < MIN_PEERS {
        *registration = RegistrationState::NotRegistered;
        *known = snapshot.peers.duplicate();
        *cache = None;
        return None;
    }
    let routes = apply_advertised_routes(interface, &snapshot.routes, applied);
    let amnezia = match &snapshot.amnezia {
        Some(config) => {
            if awg {
                Some(apply_amnezia_config(interface, config))
            } else {
                None
            }
        },
        None => None,
    };
    let self_ips = read_own_ips(snapshot, local_pubkey);
    *registration = RegistrationState::Registered;
    Some(SnapshotSetup { routes, amnezia, self_ips })
}

// ---------- the peers ----------

/// The peer is put on the interface: it is another one, and no relay has taken
/// it over.
pub open spec fn is_direct(local_pubkey: Text, bound: Entries<Text>, pubkey: Text) -> bool {
    pubkey != local_pubkey && !bound.has(pubkey)
}

/// The peers among the first of the full state that are put on the interface,
/// `count` of them. An endpoint in use that is local and working stays.
pub open spec fn entries_of(
    snapshot: SnapshotModel,
    local_pubkey: Text,
    bound: Entries<Text>,
    state: WgStateModel,
    lan: LanModel,
    now_secs: u64,
    count: nat,
) -> Seq<(Text, PeerInfoModel)>
    decreases count,
{
    if count == 0 {
        Seq::empty()
    } else {
        let before = entries_of(
            snapshot,
            local_pubkey,
            bound,
            state,
            lan,
            now_secs,
            (count - 1) as nat,
        );
        let pubkey = snapshot.peers.keys[count - 1];
        let peer = snapshot.peers.map[pubkey];
        if is_direct(local_pubkey, bound, pubkey) {
            before.push(
                (
                    pubkey,
                    PeerInfoModel {
                        endpoint: preserved_endpoint(state, pubkey, peer.endpoint, lan, now_secs),
                        ..peer
                    },
                ),
            )
        } else {
            before
        }
    }
}

/// The peers that are put on the interface.
pub fn config_entries(
    snapshot: &FullSnapshot,
    local_pubkey: &str,
    bound: &Table<String>,
    state: &WgState,
    lan: &Lan,
    now_secs: u64,
) -> (entries: Vec<(String, PeerInfo)>)
    ensures
        entries.deep_view() == entries_of(
            snapshot.deep_view(),
            local_pubkey@,
            bound.deep_view(),
            state.deep_view(),
            lan.deep_view(),
            now_secs,
            snapshot.deep_view().peers.keys.len(),
        ),
{
    let ghost peers = snapshot.peers.deep_view();
    let mut entries: Vec<(String, PeerInfo)> = Vec::new();
    let mut i: usize = 0;
    let n: usize = snapshot.peers.len();
    while i < n
        invariant
            i <= n == peers.keys.len(),
            peers == snapshot.peers.deep_view(),
            entries.deep_view() == entries_of(
                snapshot.deep_view(),
                local_pubkey@,
                bound.deep_view(),
                state.deep_view(),
                lan.deep_view(),
                now_secs,
                i as nat,
            ),
        decreases n - i,
    {
        let pubkey = snapshot.peers.key_at(i);
        let peer = snapshot.peers.value_at(i);
        if !pubkey.as_str().eq(local_pubkey) && !bound.contains_key(pubkey.as_str()) {
            let endpoint = preserve_lan_endpoint(
                state,
                pubkey.as_str(),
                &peer.endpoint,
                lan,
                now_secs,
            );
            let entry = (
                pubkey.clone(),
                PeerInfo {
                    endpoint,
                    allowed_ips: copied_list(&peer.allowed_ips),
                    persistent_keepalive: peer.persistent_keepalive,
                    preshared_key: copied_option(&peer.preshared_key),
                    local_ips: copied_list(&peer.local_ips),
                },
            );
            put(&mut entries, entry);
        }
        i = i + 1;
    }
    entries
}

/// How a peer is put on the interface by itself.
pub open spec fn entry_plan(
    interface: Text,
    entry: (Text, PeerInfoModel),
    state: WgStateModel,
) -> PeerPlanModel {
    peer_plan(
        interface,
        entry.0,
        entry.1.endpoint,
        entry.1.allowed_ips,
        entry.1.persistent_keepalive,
        entry.1.preshared_key,
        state,
    )
}

/// How a peer is put on the interface by itself, where all at once did not work.
pub fn plan_entry(interface: &str, entry: &(String, PeerInfo), state: &WgState) -> (plan: PeerPlan)
    ensures
        plan.deep_view() == entry_plan(interface@, entry.deep_view(), state.deep_view()),
{
    add_or_update_peer(
        interface,
        entry.0.as_str(),
        &entry.1.endpoint,
        &entry.1.allowed_ips,
        entry.1.persistent_keepalive,
        &entry.1.preshared_key,
        state,
    )
}

// ---------- pre-shared keys ----------

/// The peer with a pre-shared key in a line of `wg show <interface> preshared-keys`:
/// the key stands behind it, and is not `(none)`.
pub open spec fn psk_row(row: Text) -> Option<Text> {
    let words = words_of(trimmed(row));
    if words.len() < 2 || words[1] == "(none)"@ {
        None
    } else {
        Some(words[0])
    }
}

/// The peers with a pre-shared key in those lines.
pub open spec fn psk_rows(rows: Seq<Text>) -> Seq<Text>
    decreases rows.len(),
{
    if rows.len() == 0 {
        Seq::empty()
    } else {
        let before = psk_rows(rows.drop_last());
        match psk_row(rows.last()) {
            Some(pubkey) => before.push(pubkey),
            None => before,
        }
    }
}

/// The peers that have a pre-shared key, after what `wg` printed.
pub fn get_peers_with_psk(stdout: &str) -> (pubkeys: Vec<String>)
    ensures
        pubkeys.deep_view() == psk_rows(lines_of(stdout@)),
{
    let rows = lines(stdout);
    let ghost model = rows.deep_view();
    let mut pubkeys: Vec<String> = Vec::new();
    let mut i: usize = 0;
    assert(model.take(0) == Seq::<Text>::empty());
    while i < rows.len()
        invariant
            i <= rows@.len(),
            model == rows.deep_view(),
            pubkeys.deep_view() == psk_rows(model.take(i as int)),
        decreases rows@.len() - i,
    {
        assert(model[i as int] == rows@[i as int]@);
        assert(model.take(i + 1).drop_last() == model.take(i as int));
        let row = trim(rows[i].as_str());
        let words = split_words(row.as_str());
        let ghost parts = words.deep_view();
        assert(words@.len() == parts.len());
        if words.len() >= 2 {
            assert(parts[0] == words@[0]@ && parts[1] == words@[1]@);
            if !words[1].as_str().eq("(none)") {
                put(&mut pubkeys, words[0].clone());
            }
        }
        i = i + 1;
    }
    assert(model.take(i as int) == model);
    pubkeys
}

/// The pre-shared key of the peer is to be cleared: the full state asks for
/// it and has addresses for the peer, and the peer has a key, as far as that
/// is known.
pub open spec fn psk_clear_wanted(
    snapshot: SnapshotModel,
    pubkey: Text,
    with_psk: Option<Seq<Text>>,
) -> bool {
    &&& with_psk matches Some(pubkeys) ==> pubkeys.contains(pubkey)
    &&& snapshot.peers.get(pubkey) matches Some(peer)
    &&& clears(peer.preshared_key)
    &&& peer.allowed_ips matches Some(ips)
    &&& ips.len() > 0
}

/// Whether the pre-shared key of a peer is to be cleared. `with_psk` holds the
/// peers that have one, where these could be read.
pub fn psk_clear_due(snapshot: &FullSnapshot, pubkey: &str, with_psk: &Option<Vec<String>>) -> (due:
    bool)
    ensures
        due == psk_clear_wanted(snapshot.deep_view(), pubkey@, with_psk.deep_view()),
{
    let may_have = match with_psk {
        Some(pubkeys) => holds(pubkeys, pubkey),
        None => true,
    };
    if !may_have {
        return false;
    }
    match snapshot.peers.get(pubkey) {
        Some(peer) => {
            let clear = match &peer.preshared_key {
                Some(key) => key.as_str().is_empty(),
                None => false,
            };
            let has_ips = match &peer.allowed_ips {
                Some(ips) => {
                    assert(ips@.len() == ips.deep_view().len());
                    ips.len() > 0
                },
                None => false,
            };
            clear && has_ips
        },
        None => false,
    }
}

/// How a peer is put on the interface without a pre-shared key: with its
/// endpoint in use, where that is local and working.
pub open spec fn psk_clear_plan(
    interface: Text,
    pubkey: Text,
    peer: PeerInfoModel,
    state: WgStateModel,
    lan: LanModel,
    now_secs: u64,
) -> PeerPlanModel {
    peer_plan(
        interface,
        pubkey,
        preserved_endpoint(state, pubkey, peer.endpoint, lan, now_secs),
        peer.allowed_ips,
        peer.persistent_keepalive,
        Some(Seq::empty()),
        state,
    )
}

/// How a peer of the full state is put on the interface without a pre-shared key.
pub fn plan_psk_clear(
    interface: &str,
    snapshot: &FullSnapshot,
    pubkey: &str,
    state: &WgState,
    lan: &Lan,
    now_secs: u64,
) -> (plan: Option<PeerPlan>)
    ensures
        plan.deep_view() == match snapshot.deep_view().peers.get(pubkey@) {
            Some(peer) => Some(
                psk_clear_plan(
                    interface@,
                    pubkey@,
                    peer,
                    state.deep_view(),
                    lan.deep_view(),
                    now_secs,
                ),
            ),
            None => None,
        },
{
    match snapshot.peers.get(pubkey) {
        Some(peer) => {
            let endpoint = preserve_lan_endpoint(state, pubkey, &peer.endpoint, lan, now_secs);
            let empty = Some(String::new());
            assert(empty.deep_view() == Some(Seq::<char>::empty()));
            Some(
                add_or_update_peer(
                    interface,
                    pubkey,
                    &endpoint,
                    &peer.allowed_ips,
                    peer.persistent_keepalive,
                    &empty,
                    state,
                ),
            )
        },
        None => None,
    }
}

// ---------- local endpoints and peers that are gone ----------

/// The peers among the first of the full state that have endpoints in a local
/// network, `count` of them.
pub open spec fn local_peers(snapshot: SnapshotModel, local_pubkey: Text, count: nat) -> Seq<
    (Text, Seq<Text>),
>
    decreases count,
{
    if count == 0 {
        Seq::empty()
    } else {
        let before = local_peers(snapshot, local_pubkey, (count - 1) as nat);
        let pubkey = snapshot.peers.keys[count - 1];
        match snapshot.peers.map[pubkey].local_ips {
            Some(ips) => if pubkey != local_pubkey && ips.len() > 0 {
                before.push((pubkey, ips))
            } else {
                before
            },
            None => before,
        }
    }
}

/// The other peers that have endpoints in a local network, with these.
pub fn lan_candidates(snapshot: &FullSnapshot, local_pubkey: &str) -> (candidates: Vec<
    (String, Vec<String>),
>)
    ensures
        candidates.deep_view() == local_peers(
            snapshot.deep_view(),
            local_pubkey@,
            snapshot.deep_view().peers.keys.len(),
        ),
{
    let ghost peers = snapshot.peers.deep_view();
    let mut candidates: Vec<(String, Vec<String>)> = Vec::new();
    let mut i: usize = 0;
    let n: usize = snapshot.peers.len();
    while i < n
        invariant
            i <= n == peers.keys.len(),
            peers == snapshot.peers.deep_view(),
            candidates.deep_view() == local_peers(snapshot.deep_view(), local_pubkey@, i as nat),
        decreases n - i,
    {
        let pubkey = snapshot.peers.key_at(i);
        let peer = snapshot.peers.value_at(i);
        match copied_list(&peer.local_ips) {
            Some(ips) => {
                assert(ips@.len() == ips.deep_view().len());
                if !pubkey.as_str().eq(local_pubkey) && ips.len() > 0 {
                    put(&mut candidates, (pubkey.clone(), ips));
                }
            },
            None => {},
        }
        i = i + 1;
    }
    candidates
}

/// The peer is on the interface, but the full state does not know it.
pub open spec fn is_stale(snapshot: SnapshotModel, local_pubkey: Text, pubkey: Text) -> bool {
    pubkey != local_pubkey && !snapshot.peers.has(pubkey)
}

/// The peers of the interface that the full state does not know.
pub open spec fn stale_of(
    state: WgStateModel,
    snapshot: SnapshotModel,
    local_pubkey: Text,
) -> Seq<Text> {
    state.peers.keys.filter(|pubkey: Text| is_stale(snapshot, local_pubkey, pubkey))
}

/// The peers of the interface that the full state does not know, and that are
/// therefore removed.
pub fn stale_peers(state: &WgState, snapshot: &FullSnapshot, local_pubkey: &str) -> (pubkeys: Vec<
    String,
>)
    ensures
        pubkeys.deep_view() == stale_of(state.deep_view(), snapshot.deep_view(), local_pubkey@),
{
    let ghost keys = state.deep_view().peers.keys;
    let ghost gone = |pubkey: Text| is_stale(snapshot.deep_view(), local_pubkey@, pubkey);
    let mut pubkeys: Vec<String> = Vec::new();
    let mut i: usize = 0;
    let n: usize = state.peers.len();
    proof {
        reveal(Seq::filter);
        assert(keys.take(0) == Seq::<Text>::empty());
    }
    while i < n
        invariant
            i <= n == keys.len(),
            keys == state.deep_view().peers.keys,
            gone == (|pubkey: Text| is_stale(snapshot.deep_view(), local_pubkey@, pubkey)),
            pubkeys.deep_view() == keys.take(i as int).filter(gone),
        decreases n - i,
    {
        proof {
            assert(keys.take(i + 1) == keys.take(i as int).push(keys[i as int]));
            lemma_filter_push(keys.take(i as int), gone, keys[i as int]);
        }
        let pubkey = state.peers.key_at(i);
        if !pubkey.as_str().eq(local_pubkey) && !snapshot.peers.contains_key(pubkey.as_str()) {
            put(&mut pubkeys, pubkey.clone());
        }
        i = i + 1;
    }
    assert(keys.take(i as int) == keys);
    pubkeys
}

/// The full state has been applied: its peers are remembered, and the
/// interface has to be read anew.
pub fn finish_snapshot(
    snapshot: &FullSnapshot,
    known: &mut Table<PeerInfo>,
    cache: &mut Option<(u64, WgState)>,
)
    ensures
        final(known).deep_view() == snapshot.deep_view().peers,
        *final(cache) is None,
{
    *known = snapshot.peers.duplicate();
    *cache = None;
}

// ---------- what holds of a full state ----------

/// Every peer of the full state is put on the interface, but for this node and
/// the peers that a relay has taken over; and no other is.
pub proof fn law_every_peer_is_configured(
    snapshot: SnapshotModel,
    local_pubkey: Text,
    bound: Entries<Text>,
    state: WgStateModel,
    lan: LanModel,
    now_secs: u64,
    pubkey: Text,
)
    requires
        snapshot.peers.valid(),
    ensures
        ({
            let entries = entries_of(
                snapshot,
                local_pubkey,
                bound,
                state,
                lan,
                now_secs,
                snapshot.peers.keys.len(),
            );
            (exists|i: int| 0 <= i < entries.len() && (#[trigger] entries[i]).0 == pubkey)
                <==> snapshot.peers.has(pubkey) && is_direct(local_pubkey, bound, pubkey)
        }),
{
    let n = snapshot.peers.keys.len();
    lemma_entries(snapshot, local_pubkey, bound, state, lan, now_secs, n, pubkey);
    if snapshot.peers.has(pubkey) {
        assert(snapshot.peers.keys.contains(pubkey));
    }
}

/// Which of the first peers are put on the interface.
proof fn lemma_entries(
    snapshot: SnapshotModel,
    local_pubkey: Text,
    bound: Entries<Text>,
    state: WgStateModel,
    lan: LanModel,
    now_secs: u64,
    count: nat,
    pubkey: Text,
)
    requires
        snapshot.peers.valid(),
        count <= snapshot.peers.keys.len(),
    ensures
        ({
            let entries = entries_of(snapshot, local_pubkey, bound, state, lan, now_secs, count);
            (exists|i: int| 0 <= i < entries.len() && (#[trigger] entries[i]).0 == pubkey) <==> (
            exists|j: int| 0 <= j < count && snapshot.peers.keys[j] == pubkey) && is_direct(
                local_pubkey,
                bound,
                pubkey,
            )
        }),
    decreases count,
{
    if count > 0 {
        let m = (count - 1) as nat;
        lemma_entries(snapshot, local_pubkey, bound, state, lan, now_secs, m, pubkey);
        let before = entries_of(snapshot, local_pubkey, bound, state, lan, now_secs, m);
        let entries = entries_of(snapshot, local_pubkey, bound, state, lan, now_secs, count);
        let last = snapshot.peers.keys[count - 1];
        if exists|i: int| 0 <= i < before.len() && (#[trigger] before[i]).0 == pubkey {
            let i = choose|i: int| 0 <= i < before.len() && (#[trigger] before[i]).0 == pubkey;
            assert(entries[i].0 == pubkey);
        }
        if is_direct(local_pubkey, bound, last) {
            assert(entries[before.len() as int].0 == last);
        }
        if exists|i: int| 0 <= i < entries.len() && (#[trigger] entries[i]).0 == pubkey {
            let i = choose|i: int| 0 <= i < entries.len() && (#[trigger] entries[i]).0 == pubkey;
            if i < before.len() {
                assert(before[i].0 == pubkey);
            } else {
                assert(snapshot.peers.keys[count - 1] == pubkey);
            }
        }
    }
}

/// The peers that are to go are exactly those of the interface that the full
/// state does not know, but for this node itself.
pub proof fn law_only_known_peers_stay(
    state: WgStateModel,
    snapshot: SnapshotModel,
    local_pubkey: Text,
    pubkey: Text,
)
    requires
        state.peers.valid(),
    ensures
        stale_of(state, snapshot, local_pubkey).contains(pubkey) <==> state.peers.has(pubkey)
            && !snapshot.peers.has(pubkey) && pubkey != local_pubkey,
{
    lemma_filter_contains(
        state.peers.keys,
        |k: Text| is_stale(snapshot, local_pubkey, k),
        pubkey,
    );
}

/// A full state that is complete knows this node and another; one with fewer
/// peers than that never is.
pub proof fn law_incomplete_is_refused(snapshot: SnapshotModel, local_pubkey: Text)
    requires
        snapshot.peers.valid(),
    ensures
        is_complete(snapshot, local_pubkey) ==> snapshot.peers.has(local_pubkey) && exists|
            other: Text,
        | #[trigger]
            snapshot.peers.has(other) && other != local_pubkey,
        snapshot.peers.keys.len() < MIN_PEERS ==> !is_complete(snapshot, local_pubkey),
{
    if is_complete(snapshot, local_pubkey) {
        let keys = snapshot.peers.keys;
        assert(keys.contains(keys[0]) && keys.contains(keys[1]));
        assert(keys[0] != keys[1]);
        let other = if keys[0] != local_pubkey {
            keys[0]
        } else {
            keys[1]
        };
        assert(snapshot.peers.has(other));
    }
}

/// A full state is taken up exactly where it knows this node and another one.
pub proof fn law_complete_state_is_taken_up(
    snapshot: SnapshotModel,
    local_pubkey: Text,
    other: Text,
)
    requires
        snapshot.peers.valid(),
        snapshot.peers.has(local_pubkey),
        snapshot.peers.has(other),
        other != local_pubkey,
    ensures
        is_complete(snapshot, local_pubkey),
{
    let keys = snapshot.peers.keys;
    assert(keys.contains(local_pubkey) && keys.contains(other));
    let i = choose|i: int| 0 <= i < keys.len() && keys[i] == local_pubkey;
    let j = choose|j: int| 0 <= j < keys.len() && keys[j] == other;
    assert(i != j);
}

/// This node gets the first single host of each family that the full state
/// gives it: one family is enough, and only where there is neither does it get
/// no address. A family without a host is empty.
pub proof fn law_one_family_is_enough(
    interface: Text,
    local_pubkey: Text,
    snapshot: SnapshotModel,
    awg: bool,
    applied: RoutesModel,
    ips: Seq<Text>,
    i: int,
)
    requires
        snapshot.peers.has(local_pubkey),
        snapshot.peers.map[local_pubkey].allowed_ips == Some(ips),
    ensures
        ({
            let own = setup_of(interface, local_pubkey, snapshot, awg, applied).self_ips;
            let no_v4 = forall|j: int|
                0 <= j < ips.len() ==> !single_host(#[trigger] ips[j], false);
            let no_v6 = forall|j: int|
                0 <= j < ips.len() ==> !single_host(#[trigger] ips[j], true);
            &&& is_first_host(ips, i, false) ==> (own matches Some(pair) && pair.0 == ips[i])
            &&& is_first_host(ips, i, true) ==> (own matches Some(pair) && pair.1 == ips[i])
            &&& no_v4 ==> (own matches Some(pair) ==> pair.0.len() == 0)
            &&& no_v6 ==> (own matches Some(pair) ==> pair.1.len() == 0)
            &&& own is None <==> no_v4 && no_v6
        }),
{
    law_first_host_is_the_own(ips, i);
    if exists|j: int| 0 <= j < ips.len() && single_host(#[trigger] ips[j], false) {
        let k = lemma_some_first_host(ips, false);
        law_first_host_is_the_own(ips, k);
    }
    if exists|j: int| 0 <= j < ips.len() && single_host(#[trigger] ips[j], true) {
        let k = lemma_some_first_host(ips, true);
        law_first_host_is_the_own(ips, k);
    }
}

/// A full state that gives this node no addresses leaves it without; and what
/// it says of others never becomes an own address.
pub proof fn law_own_addresses_are_the_own(
    interface: Text,
    local_pubkey: Text,
    snapshot: SnapshotModel,
    other: SnapshotModel,
    awg: bool,
    applied: RoutesModel,
)
    ensures
        !snapshot.peers.has(local_pubkey) || snapshot.peers.map[local_pubkey].allowed_ips is None
            ==> setup_of(interface, local_pubkey, snapshot, awg, applied).self_ips is None,
        snapshot.peers.get(local_pubkey) == other.peers.get(local_pubkey) ==> setup_of(
            interface,
            local_pubkey,
            snapshot,
            awg,
            applied,
        ).self_ips == setup_of(interface, local_pubkey, other, awg, applied).self_ips,
{
}

/// The obfuscation is set exactly where its tool is used and the full state has
/// settings for it; the routes take the place of the ones before either way.
pub proof fn law_setup_follows_the_full_state(
    interface: Text,
    local_pubkey: Text,
    snapshot: SnapshotModel,
    awg: bool,
    applied: RoutesModel,
)
    ensures
        ({
            let setup = setup_of(interface, local_pubkey, snapshot, awg, applied);
            &&& setup.routes == route_plan(interface, snapshot.routes, applied)
            &&& setup.amnezia is Some <==> awg && snapshot.amnezia is Some
            &&& setup.amnezia matches Some(args) ==> args == amnezia_args(
                interface,
                snapshot.amnezia->0,
            )
        }),
{
}

/// A payload is taken up unless it is the one that came last, and then the
/// document is what it unpacks to, or itself where it does not unpack.
pub proof fn law_new_payload_is_taken_up(last_hash: Option<Seq<u8>>, payload: Seq<u8>)
    ensures
        last_hash != Some(blake3_of(payload)) ==> accepted(last_hash, payload) is Some,
        accepted(last_hash, payload) matches Some(bytes) ==> {
            &&& zstd_content(payload) matches Some(content) ==> bytes == content
            &&& zstd_content(payload) is None ==> bytes == payload
        },
{
}

/// A peer goes on as the full state describes it, with all its addresses, its
/// keepalive, its pre-shared key and its local endpoints. Its endpoint is the
/// described one too, unless the one in use is local and works.
pub proof fn law_peer_goes_on_as_described(
    snapshot: SnapshotModel,
    local_pubkey: Text,
    bound: Entries<Text>,
    state: WgStateModel,
    lan: LanModel,
    now_secs: u64,
    count: nat,
    i: int,
)
    requires
        snapshot.peers.valid(),
        count <= snapshot.peers.keys.len(),
        0 <= i < entries_of(snapshot, local_pubkey, bound, state, lan, now_secs, count).len(),
    ensures
        ({
            let entry = entries_of(
                snapshot,
                local_pubkey,
                bound,
                state,
                lan,
                now_secs,
                count,
            )[i];
            let peer = snapshot.peers.map[entry.0];
            &&& snapshot.peers.has(entry.0)
            &&& entry.0 != local_pubkey
            &&& !bound.has(entry.0)
            &&& entry.1.allowed_ips == peer.allowed_ips
            &&& entry.1.persistent_keepalive == peer.persistent_keepalive
            &&& entry.1.preshared_key == peer.preshared_key
            &&& entry.1.local_ips == peer.local_ips
            &&& entry.1.endpoint == preserved_endpoint(
                state,
                entry.0,
                peer.endpoint,
                lan,
                now_secs,
            )
        }),
    decreases count,
{
    let m = (count - 1) as nat;
    let before = entries_of(snapshot, local_pubkey, bound, state, lan, now_secs, m);
    let last = snapshot.peers.keys[count - 1];
    assert(snapshot.peers.keys.contains(last));
    if i < before.len() {
        law_peer_goes_on_as_described(
            snapshot,
            local_pubkey,
            bound,
            state,
            lan,
            now_secs,
            m,
            i,
        );
    }
}

/// Every other peer of the full state that no relay has taken over goes on, and
/// once only.
pub proof fn law_every_peer_goes_on_once(
    snapshot: SnapshotModel,
    local_pubkey: Text,
    bound: Entries<Text>,
    state: WgStateModel,
    lan: LanModel,
    now_secs: u64,
    pubkey: Text,
)
    requires
        snapshot.peers.valid(),
        snapshot.peers.has(pubkey),
        pubkey != local_pubkey,
        !bound.has(pubkey),
    ensures
        ({
            let entries = entries_of(
                snapshot,
                local_pubkey,
                bound,
                state,
                lan,
                now_secs,
                snapshot.peers.keys.len(),
            );
            &&& exists|i: int| 0 <= i < entries.len() && (#[trigger] entries[i]).0 == pubkey
            &&& forall|i: int, j: int|
                0 <= i < j < entries.len() ==> (#[trigger] entries[i]).0 != (
                #[trigger] entries[j]).0
        }),
{
    law_every_peer_is_configured(
        snapshot,
        local_pubkey,
        bound,
        state,
        lan,
        now_secs,
        pubkey,
    );
    lemma_entries_once(
        snapshot,
        local_pubkey,
        bound,
        state,
        lan,
        now_secs,
        snapshot.peers.keys.len(),
    );
}

/// No two of the first peers that go on are the same.
proof fn lemma_entries_once(
    snapshot: SnapshotModel,
    local_pubkey: Text,
    bound: Entries<Text>,
    state: WgStateModel,
    lan: LanModel,
    now_secs: u64,
    count: nat,
)
    requires
        snapshot.peers.valid(),
        count <= snapshot.peers.keys.len(),
    ensures
        ({
            let entries = entries_of(snapshot, local_pubkey, bound, state, lan, now_secs, count);
            &&& forall|i: int, j: int|
                0 <= i < j < entries.len() ==> (#[trigger] entries[i]).0 != (
                #[trigger] entries[j]).0
        }),
    decreases count,
{
    if count > 0 {
        let m = (count - 1) as nat;
        lemma_entries_once(snapshot, local_pubkey, bound, state, lan, now_secs, m);
        let before = entries_of(snapshot, local_pubkey, bound, state, lan, now_secs, m);
        let entries = entries_of(snapshot, local_pubkey, bound, state, lan, now_secs, count);
        let last = snapshot.peers.keys[count - 1];
        lemma_entries(snapshot, local_pubkey, bound, state, lan, now_secs, m, last);
        assert forall|i: int, j: int| 0 <= i < j < entries.len() implies (
        #[trigger] entries[i]).0 != (#[trigger] entries[j]).0 by {
            assert(before[i] == entries[i]);
            if j < before.len() {
                assert(before[j] == entries[j]);
            } else {
                assert(entries[j].0 == last);
                if entries[i].0 == last {
                    assert(before[i].0 == last);
                    let k = choose|k: int| 0 <= k < m && snapshot.peers.keys[k] == last;
                    assert(k != count - 1);
                }
            }
        }
    }
}

/// A row of the list of keys names a peer with a pre-shared key where a key
/// stands behind the peer, and none where it says that there is none, or
/// nothing.
pub proof fn law_keyed_peers_are_read(rows: Seq<Text>, pubkey: Text, gap: char, key: Text)
    requires
        is_word(pubkey),
        is_word(key),
        is_space(gap),
    ensures
        psk_rows(rows.push(pubkey + seq![gap] + key)) == if key == "(none)"@ {
            psk_rows(rows)
        } else {
            psk_rows(rows).push(pubkey)
        },
        psk_rows(rows.push(pubkey)) == psk_rows(rows),
        psk_rows(Seq::empty()).len() == 0,
{
    let row = pubkey + seq![gap] + key;
    assert(row.first() == pubkey[0]);
    assert(row.last() == key[key.len() - 1]);
    assert(pubkey.last() == pubkey[pubkey.len() - 1]);
    law_trimmed(row);
    law_trimmed(pubkey);
    law_words(pubkey, gap, key);
    law_words(key, gap, Seq::empty());
    assert(words_of(row) == seq![pubkey] + seq![key]);
    assert(rows.push(row).drop_last() == rows);
    assert(rows.push(pubkey).drop_last() == rows);
}

/// The key of a peer is cleared exactly where the full state knows the peer
/// with an empty key and with addresses, and the peer has a key or it is not
/// known which have one.
pub proof fn law_key_is_cleared_where_it_is_empty(
    snapshot: SnapshotModel,
    pubkey: Text,
    with_psk: Option<Seq<Text>>,
)
    ensures
        psk_clear_wanted(snapshot, pubkey, with_psk) <==> {
            &&& snapshot.peers.has(pubkey)
            &&& snapshot.peers.map[pubkey].preshared_key == Some(Seq::<char>::empty())
            &&& snapshot.peers.map[pubkey].allowed_ips is Some
            &&& snapshot.peers.map[pubkey].allowed_ips->0.len() > 0
            &&& with_psk is None || with_psk->0.contains(pubkey)
        },
{
    if snapshot.peers.has(pubkey) {
        if let Some(key) = snapshot.peers.map[pubkey].preshared_key {
            assert(key.len() == 0 ==> key == Seq::<char>::empty());
        }
    }
}

/// A peer whose key is cleared is removed if it is there, and comes back as the
/// full state describes it, without a key.
pub proof fn law_cleared_peer_comes_back(
    interface: Text,
    pubkey: Text,
    peer: PeerInfoModel,
    ips: Seq<Text>,
    state: WgStateModel,
    lan: LanModel,
    now_secs: u64,
)
    requires
        peer.allowed_ips == Some(ips),
        ips.len() > 0,
    ensures
        ({
            let plan = psk_clear_plan(interface, pubkey, peer, state, lan, now_secs);
            &&& plan.removal is Some <==> state.peers.has(pubkey)
            &&& plan.update matches Some(update)
            &&& update.pubkey == pubkey
            &&& update.interface == interface
            &&& update.preshared_key is None
            &&& update.allowed_ips == ips
            &&& update.endpoint == preserved_endpoint(state, pubkey, peer.endpoint, lan, now_secs)
            &&& peer.persistent_keepalive is Some ==> update.keepalive
                == peer.persistent_keepalive
            &&& update.keepalive is Some
        }),
{
}

/// A peer goes on by itself as it would with all the others.
pub proof fn law_single_peer_goes_on_as_described(
    interface: Text,
    pubkey: Text,
    peer: PeerInfoModel,
    ips: Seq<Text>,
    state: WgStateModel,
)
    requires
        peer.allowed_ips == Some(ips),
        ips.len() > 0,
    ensures
        entry_plan(interface, (pubkey, peer), state).update matches Some(update) && {
            &&& update.pubkey == pubkey
            &&& update.interface == interface
            &&& update.allowed_ips == ips
            &&& update.endpoint == peer.endpoint
            &&& peer.preshared_key matches Some(key) ==> (key.len() > 0 ==> update.preshared_key
                == Some(key))
            &&& peer.persistent_keepalive is Some ==> update.keepalive
                == peer.persistent_keepalive
        },
{
}

/// Every other peer with local endpoints is a candidate, with all of them; and
/// no other is.
pub proof fn law_local_endpoints_make_a_candidate(
    snapshot: SnapshotModel,
    local_pubkey: Text,
    pubkey: Text,
    endpoints: Seq<Text>,
)
    requires
        snapshot.peers.valid(),
    ensures
        local_peers(snapshot, local_pubkey, snapshot.peers.keys.len()).contains((pubkey, endpoints))
            <==> {
            &&& snapshot.peers.has(pubkey)
            &&& pubkey != local_pubkey
            &&& snapshot.peers.map[pubkey].local_ips == Some(endpoints)
            &&& endpoints.len() > 0
        },
{
    let keys = snapshot.peers.keys;
    lemma_candidates(snapshot, local_pubkey, pubkey, endpoints, keys.len());
    assert(snapshot.peers.has(pubkey) <==> keys.contains(pubkey));
}

/// Which of the first peers are candidates.
proof fn lemma_candidates(
    snapshot: SnapshotModel,
    local_pubkey: Text,
    pubkey: Text,
    endpoints: Seq<Text>,
    count: nat,
)
    requires
        snapshot.peers.valid(),
        count <= snapshot.peers.keys.len(),
    ensures
        local_peers(snapshot, local_pubkey, count).contains((pubkey, endpoints)) <==> {
            &&& exists|j: int| 0 <= j < count && snapshot.peers.keys[j] == pubkey
            &&& pubkey != local_pubkey
            &&& snapshot.peers.map[pubkey].local_ips == Some(endpoints)
            &&& endpoints.len() > 0
        },
    decreases count,
{
    if count > 0 {
        let m = (count - 1) as nat;
        lemma_candidates(snapshot, local_pubkey, pubkey, endpoints, m);
        let before = local_peers(snapshot, local_pubkey, m);
        let all = local_peers(snapshot, local_pubkey, count);
        let last = snapshot.peers.keys[count - 1];
        let candidate = (pubkey, endpoints);
        if before.contains(candidate) {
            let i = choose|i: int| 0 <= i < before.len() && before[i] == candidate;
            assert(all[i] == candidate);
        }
        if all.len() > before.len() {
            assert(all[before.len() as int] == (last, snapshot.peers.map[last].local_ips->0));
        }
        if all.contains(candidate) && !before.contains(candidate) {
            let i = choose|i: int| 0 <= i < all.len() && all[i] == candidate;
            if i < before.len() {
                assert(before[i] == candidate);
            }
            assert(snapshot.peers.keys[count - 1] == pubkey);
        }
        if exists|j: int| 0 <= j < count && snapshot.peers.keys[j] == pubkey {
            let j = choose|j: int| 0 <= j < count && snapshot.peers.keys[j] == pubkey;
            if j == count - 1 {
                assert(last == pubkey);
            }
        }
    }
}

/// What stands behind the key of a row plays no part.
pub proof fn law_rest_of_a_row_plays_no_part(
    rows: Seq<Text>,
    pubkey: Text,
    gap: char,
    key: Text,
    rest: Text,
)
    requires
        is_word(pubkey),
        is_word(key),
        is_word(rest),
        is_space(gap),
    ensures
        psk_rows(rows.push(pubkey + seq![gap] + (key + seq![gap] + rest))) == psk_rows(
            rows.push(pubkey + seq![gap] + key),
        ),
{
    let tail = key + seq![gap] + rest;
    let row = pubkey + seq![gap] + tail;
    assert(row.first() == pubkey[0]);
    assert(row.last() == rest[rest.len() - 1]);
    law_trimmed(row);
    law_words(pubkey, gap, tail);
    law_words(key, gap, rest);
    law_words(rest, gap, Seq::empty());
    assert(words_of(row) == seq![pubkey] + (seq![key] + seq![rest]));
    assert(rows.push(row).drop_last() == rows);
    law_keyed_peers_are_read(rows, pubkey, gap, key);
}

} // verus!
