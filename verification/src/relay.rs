//! Relays: peers that carry the traffic of others that cannot be reached.
use vstd::prelude::*;

use crate::list::{
    copied, difference, distinct, holds, lacking, lemma_distinct, lemma_distinct_already,
    lemma_lacking, lemma_nothing_lacking, lemma_same_elements, put, unique,
};
use crate::peer::{PeerInfo, PeerInfoModel};
use crate::routes::{AdvertisedRoutes, RoutesModel};
use crate::snapshot::{FullSnapshot, SnapshotModel};
use crate::state::{
    get_current_allowed_ips, has_recent_handshake, recent, PeerNotFound, WgState, WgStateModel,
};
use crate::table::{Duplicate, Entries, Table};
use crate::text::{
    insert_in_order, join, joined, law_split_undoes_join, lemma_precedes_total, ordered, owned,
    precedes, split_at, Text,
};

verus! {

/// The seconds since the last handshake after which a peer counts as lost.
pub const RELAY_FAIL_THRESHOLD: u64 = 180;

/// How often in a row a peer has to be found lost before a relay takes over.
pub const RELAY_FAIL_COUNT_MAX: u32 = 2;

// ---------- what the last full state said ----------

/// The addresses of a peer in the last full state: none where it has none.
pub open spec fn original_ips(known: Entries<PeerInfoModel>, pubkey: Text) -> Seq<Text> {
    match known.get(pubkey) {
        Some(peer) => match peer.allowed_ips {
            Some(ips) => ips,
            None => Seq::empty(),
        },
        None => Seq::empty(),
    }
}

/// The addresses of a peer in the last full state, of which `known` holds the peers.
pub fn get_original_ips_from_snapshot(known: &Table<PeerInfo>, pubkey: &str) -> (ips: Vec<String>)
    ensures
        ips.deep_view() == original_ips(known.deep_view(), pubkey@),
{
    match known.get(pubkey) {
        Some(peer) => match &peer.allowed_ips {
            Some(ips) => copied(ips),
            None => Vec::new(),
        },
        None => Vec::new(),
    }
}

/// The last full state as far as its peers go, where it had any.
pub open spec fn last_state(known: Entries<PeerInfoModel>) -> Option<SnapshotModel> {
    if known.keys.len() == 0 {
        None
    } else {
        Some(SnapshotModel { peers: known, routes: RoutesModel::none(), amnezia: None })
    }
}

/// The last full state as far as its peers go, where it had any.
pub fn get_last_snapshot(known: &Table<PeerInfo>) -> (snapshot: Option<FullSnapshot>)
    ensures
        snapshot.deep_view() == last_state(known.deep_view()),
{
    if known.len() == 0 {
        None
    } else {
        Some(
            FullSnapshot {
                peers: known.duplicate(),
                routes: AdvertisedRoutes::none(),
                amnezia: None,
            },
        )
    }
}

// ---------- the pool of relays ----------

/// A peer can serve as a relay: the full state gives it one of the relay
/// networks, and it shook hands lately.
pub open spec fn relay_candidate(
    snapshot: SnapshotModel,
    state: WgStateModel,
    cidr_v4: Text,
    cidr_v6: Text,
    now_secs: u64,
    pubkey: Text,
) -> bool {
    &&& snapshot.peers.get(pubkey) matches Some(peer)
    &&& peer.allowed_ips matches Some(ips)
    &&& ips.contains(cidr_v4) || ips.contains(cidr_v6)
    &&& recent(state, pubkey, RELAY_FAIL_THRESHOLD, now_secs)
}

/// The peers of the full state that can serve as relays, in order.
pub fn discover_relay(
    snapshot: &FullSnapshot,
    state: &WgState,
    cidr_v4: &str,
    cidr_v6: &str,
    now_secs: u64,
) -> (pool: Vec<String>)
    ensures
        ordered(pool.deep_view()),
        forall|pk: Text|
            pool.deep_view().contains(pk) <==> #[trigger] relay_candidate(
                snapshot.deep_view(),
                state.deep_view(),
                cidr_v4@,
                cidr_v6@,
                now_secs,
                pk,
            ),
{
    let ghost entries = snapshot.peers.deep_view();
    let ghost fit = |pk: Text|
        relay_candidate(
            snapshot.deep_view(),
            state.deep_view(),
            cidr_v4@,
            cidr_v6@,
            now_secs,
            pk,
        );
    let mut pool: Vec<String> = Vec::new();
    let mut i: usize = 0;
    let n: usize = snapshot.peers.len();
    while i < n
        invariant
            i <= n == entries.keys.len(),
            entries == snapshot.peers.deep_view(),
            entries.valid(),
            fit == (|pk: Text|
                relay_candidate(
                    snapshot.deep_view(),
                    state.deep_view(),
                    cidr_v4@,
                    cidr_v6@,
                    now_secs,
                    pk,
                )),
            ordered(pool.deep_view()),
            forall|pk: Text| #[trigger]
                pool.deep_view().contains(pk) <==> entries.keys.take(i as int).contains(pk) && fit(
                    pk,
                ),
        decreases n - i,
    {
        let ghost front = entries.keys.take(i as int);
        let ghost key = entries.keys[i as int];
        let ghost before = pool.deep_view();
        let pubkey = snapshot.peers.key_at(i);
        let peer = snapshot.peers.value_at(i);
        proof {
            assert(entries.keys.take(i + 1) == front.push(key));
            assert forall|pk: Text| entries.keys.take(i + 1).contains(pk) <==> front.contains(pk)
                || pk == key by {
                if front.contains(pk) {
                    let j = choose|j: int| 0 <= j < front.len() && front[j] == pk;
                    assert(entries.keys.take(i + 1)[j] == pk);
                }
                assert(entries.keys.take(i + 1)[i as int] == key);
            }
            if front.contains(key) {
                let j = choose|j: int| 0 <= j < front.len() && front[j] == key;
                assert(entries.keys[j] == key);
            }
        }
        let carries = match &peer.allowed_ips {
            Some(ips) => holds(ips, cidr_v4) || holds(ips, cidr_v6),
            None => false,
        };
        if carries && has_recent_handshake(state, pubkey.as_str(), RELAY_FAIL_THRESHOLD, now_secs) {
            assert(fit(key));
            insert_in_order(&mut pool, pubkey.clone());
            assert forall|pk: Text| #[trigger] pool.deep_view().contains(pk) <==> before.contains(
                pk,
            ) || pk == key by {
                assert(pool.deep_view().contains(pk) <==> pool.deep_view().to_set().contains(pk));
                assert(before.contains(pk) <==> before.to_set().contains(pk));
            }
        } else {
            assert(!fit(key));
        }
        i = i + 1;
    }
    assert(entries.keys.take(i as int) == entries.keys);
    assert forall|pk: Text|
        pool.deep_view().contains(pk) <==> #[trigger] relay_candidate(
            snapshot.deep_view(),
            state.deep_view(),
            cidr_v4@,
            cidr_v6@,
            now_secs,
            pk,
        ) by {
        assert(fit(pk) == relay_candidate(
            snapshot.deep_view(),
            state.deep_view(),
            cidr_v4@,
            cidr_v6@,
            now_secs,
            pk,
        ));
    }
    pool
}

// ---------- addresses that move between peers ----------

/// The arguments of `wg` that set the addresses of a peer.
pub open spec fn allowed_args(interface: Text, pubkey: Text, ips: Seq<Text>) -> Seq<Text> {
    seq!["set"@, interface, "peer"@, pubkey, "allowed-ips"@, joined(ips, ","@)]
}

/// The arguments of `wg` that set the addresses of a peer.
pub fn set_allowed_ips(interface: &str, pubkey: &str, ips: &[String]) -> (args: Vec<String>)
    ensures
        args.deep_view() == allowed_args(interface@, pubkey@, ips.deep_view()),
{
    let list = join(ips, ",");
    owned(vec!["set", interface, "peer", pubkey, "allowed-ips", list.as_str()])
}

/// The addresses with those others, each once.
pub open spec fn with_ips(current: Seq<Text>, ips: Seq<Text>) -> Seq<Text> {
    distinct(current + ips)
}

/// How those addresses are added to the ones that a peer has, where the peer
/// is on the interface.
pub fn add_ips_to_peer(interface: &str, pubkey: &str, ips: &[String], state: &WgState) -> (args:
    Result<Vec<String>, PeerNotFound>)
    ensures
        match args {
            Ok(a) => state.deep_view().peers.has(pubkey@) && a.deep_view() == allowed_args(
                interface@,
                pubkey@,
                with_ips(state.deep_view().peers.map[pubkey@].allowed_ips, ips.deep_view()),
            ),
            Err(e) => !state.deep_view().peers.has(pubkey@) && e.pubkey@ == pubkey@,
        },
{
    match get_current_allowed_ips(state, pubkey) {
        Ok(current) => {
            let ghost had = current.deep_view();
            let mut all = current;
            let mut i: usize = 0;
            while i < ips.len()
                invariant
                    i <= ips@.len(),
                    all.deep_view() == had + ips.deep_view().take(i as int),
                decreases ips@.len() - i,
            {
                assert(ips.deep_view()[i as int] == ips@[i as int]@);
                put(&mut all, ips[i].clone());
                i = i + 1;
            }
            assert(ips.deep_view().take(i as int) == ips.deep_view());
            let once = unique(&all);
            Ok(set_allowed_ips(interface, pubkey, &once))
        },
        Err(e) => Err(e),
    }
}

/// How those addresses are taken from the ones that a peer has, where the peer
/// is on the interface.
pub fn remove_ips_from_peer(interface: &str, pubkey: &str, ips: &[String], state: &WgState) -> (args:
    Result<Vec<String>, PeerNotFound>)
    ensures
        match args {
            Ok(a) => state.deep_view().peers.has(pubkey@) && a.deep_view() == allowed_args(
                interface@,
                pubkey@,
                lacking(state.deep_view().peers.map[pubkey@].allowed_ips, ips.deep_view()),
            ),
            Err(e) => !state.deep_view().peers.has(pubkey@) && e.pubkey@ == pubkey@,
        },
{
    match get_current_allowed_ips(state, pubkey) {
        Ok(current) => {
            let rest = difference(&current, ips);
            Ok(set_allowed_ips(interface, pubkey, &rest))
        },
        Err(e) => Err(e),
    }
}

// ---------- what holds of the addresses ----------

/// Taking addresses from a peer undoes adding them, where the peer had none of
/// them before and none twice.
pub proof fn law_remove_undoes_add(current: Seq<Text>, ips: Seq<Text>)
    requires
        current.no_duplicates(),
        forall|ip: Text| current.contains(ip) ==> !ips.contains(ip),
    ensures
        lacking(with_ips(current, ips), ips) == current,
    decreases ips.len(),
{
    lemma_front_first(current, ips);
    let extra = with_ips(current, ips).skip(current.len() as int);
    let all = with_ips(current, ips);
    assert(all == current + extra);
    lemma_distinct(current + ips);
    lemma_lacking_all(current, ips);
    assert forall|ip: Text| extra.contains(ip) implies ips.contains(ip) by {
        let i = choose|i: int| 0 <= i < extra.len() && extra[i] == ip;
        assert(all[current.len() + i] == ip);
        assert(all.to_set().contains(ip));
        assert((current + ips).to_set().contains(ip));
        assert((current + ips).contains(ip));
        let j = choose|j: int| 0 <= j < (current + ips).len() && (current + ips)[j] == ip;
        if j < current.len() {
            assert(all[j] == current[j]);
            assert(false);
        } else {
            assert(ips[j - current.len()] == ip);
        }
    }
    lemma_nothing_lacking(extra, ips);
    lemma_lacking_concat(current, extra, ips);
}

/// `distinct` keeps a front in which nothing occurs twice.
proof fn lemma_front_first(front: Seq<Text>, back: Seq<Text>)
    requires
        front.no_duplicates(),
    ensures
        distinct(front + back).len() >= front.len(),
        distinct(front + back).take(front.len() as int) == front,
    decreases back.len(),
{
    if back.len() == 0 {
        assert(front + back == front);
        lemma_distinct_already(front);
    } else {
        lemma_front_first(front, back.drop_last());
        assert((front + back).drop_last() == front + back.drop_last());
    }
}

/// Where nothing of `s` is in `t`, all of it is lacking.
proof fn lemma_lacking_all(s: Seq<Text>, t: Seq<Text>)
    requires
        forall|c: Text| s.contains(c) ==> !t.contains(c),
    ensures
        lacking(s, t) == s,
    decreases s.len(),
{
    reveal(Seq::filter);
    if s.len() > 0 {
        let front = s.drop_last();
        assert(s.contains(s.last()));
        assert forall|c: Text| front.contains(c) implies !t.contains(c) by {
            let i = choose|i: int| 0 <= i < front.len() && front[i] == c;
            assert(s[i] == c);
        }
        lemma_lacking_all(front, t);
        assert(s == front.push(s.last()));
    }
}

/// What is lacking of two parts, one behind the other.
proof fn lemma_lacking_concat(a: Seq<Text>, b: Seq<Text>, t: Seq<Text>)
    ensures
        lacking(a + b, t) == lacking(a, t) + lacking(b, t),
    decreases b.len(),
{
    reveal(Seq::filter);
    if b.len() == 0 {
        assert(a + b == a);
    } else {
        lemma_lacking_concat(a, b.drop_last(), t);
        assert((a + b).drop_last() == a + b.drop_last());
    }
}

/// The order of the pool leaves nothing open: two pools of the same relays are
/// the same.
pub proof fn law_pool_is_determined(a: Seq<Text>, b: Seq<Text>)
    requires
        ordered(a),
        ordered(b),
        forall|pk: Text| a.contains(pk) <==> b.contains(pk),
    ensures
        a == b,
    decreases a.len(),
{
    if a.len() == 0 {
        if b.len() > 0 {
            assert(b.contains(b[0]));
        }
        assert(a == b);
    } else {
        assert(a.contains(a[0]));
        let i = choose|i: int| 0 <= i < b.len() && b[i] == a[0];
        assert(b.contains(b[0]));
        let j = choose|j: int| 0 <= j < a.len() && a[j] == b[0];
        lemma_precedes_total(a[0], b[0]);
        if i > 0 {
            assert(precedes(b[0], b[i]));
        }
        if j > 0 {
            assert(precedes(a[0], a[j]));
        }
        assert(a[0] == b[0]);
        let x = a.drop_first();
        let y = b.drop_first();
        assert forall|pk: Text| x.contains(pk) <==> y.contains(pk) by {
            lemma_behind_first(a, pk);
            lemma_behind_first(b, pk);
        }
        assert(ordered(x)) by {
            assert forall|p: int, q: int| 0 <= p < q < x.len() implies precedes(
                #[trigger] x[p],
                #[trigger] x[q],
            ) by {
                assert(precedes(a[p + 1], a[q + 1]));
            }
        }
        assert(ordered(y)) by {
            assert forall|p: int, q: int| 0 <= p < q < y.len() implies precedes(
                #[trigger] y[p],
                #[trigger] y[q],
            ) by {
                assert(precedes(b[p + 1], b[q + 1]));
            }
        }
        law_pool_is_determined(x, y);
        assert(a == seq![a[0]] + x);
        assert(b == seq![b[0]] + y);
    }
}

/// In order, the first text does not occur again behind itself.
proof fn lemma_behind_first(s: Seq<Text>, t: Text)
    requires
        ordered(s),
        s.len() > 0,
    ensures
        s.drop_first().contains(t) <==> s.contains(t) && t != s[0],
{
    let rest = s.drop_first();
    if rest.contains(t) {
        let i = choose|i: int| 0 <= i < rest.len() && rest[i] == t;
        assert(s[i + 1] == t);
        assert(precedes(s[0], s[i + 1]));
        lemma_precedes_total(s[0], t);
    }
    if s.contains(t) && t != s[0] {
        let i = choose|i: int| 0 <= i < s.len() && s[i] == t;
        assert(rest[i - 1] == t);
    }
}

// ---------- what holds of the pool ----------

/// A peer of the full state that shook hands at most 180 seconds ago is a
/// relay as soon as its addresses hold one of the two relay networks, whichever
/// it is and whatever else they hold. No other peer is.
pub proof fn law_either_network_makes_a_relay(
    snapshot: SnapshotModel,
    state: WgStateModel,
    cidr_v4: Text,
    cidr_v6: Text,
    now_secs: u64,
    pubkey: Text,
    pool: Seq<Text>,
)
    requires
        forall|pk: Text|
            pool.contains(pk) <==> #[trigger] relay_candidate(
                snapshot,
                state,
                cidr_v4,
                cidr_v6,
                now_secs,
                pk,
            ),
    ensures
        ({
            let described = snapshot.peers.has(pubkey)
                && snapshot.peers.map[pubkey].allowed_ips is Some;
            let ips = snapshot.peers.map[pubkey].allowed_ips->0;
            let alive = {
                &&& state.peers.has(pubkey)
                &&& state.peers.map[pubkey].latest_handshake matches Some(at)
                &&& at + 180 >= now_secs
            };
            &&& described && alive && ips.contains(cidr_v4) ==> pool.contains(pubkey)
            &&& described && alive && ips.contains(cidr_v6) ==> pool.contains(pubkey)
            &&& pool.contains(pubkey) ==> described && alive
            &&& pool.contains(pubkey) && !ips.contains(cidr_v4) ==> ips.contains(cidr_v6)
        }),
{
    assert(relay_candidate(snapshot, state, cidr_v4, cidr_v6, now_secs, pubkey) <==> pool.contains(
        pubkey,
    ));
}

/// A peer that gets more addresses does not cease to be a relay, and neither
/// does one whose handshake becomes younger.
pub proof fn law_relay_stays_with_more_addresses(
    snapshot: SnapshotModel,
    more: SnapshotModel,
    state: WgStateModel,
    younger: WgStateModel,
    cidr_v4: Text,
    cidr_v6: Text,
    now_secs: u64,
    pubkey: Text,
)
    requires
        relay_candidate(snapshot, state, cidr_v4, cidr_v6, now_secs, pubkey),
        more.peers.has(pubkey),
        more.peers.map[pubkey].allowed_ips is Some,
        forall|ip: Text| #[trigger]
            snapshot.peers.map[pubkey].allowed_ips->0.contains(ip)
                ==> more.peers.map[pubkey].allowed_ips->0.contains(ip),
        younger.peers.has(pubkey),
        younger.peers.map[pubkey].latest_handshake is Some,
        younger.peers.map[pubkey].latest_handshake->0
            >= state.peers.map[pubkey].latest_handshake->0,
    ensures
        relay_candidate(more, younger, cidr_v4, cidr_v6, now_secs, pubkey),
        relay_candidate(more, younger, cidr_v6, cidr_v4, now_secs, pubkey),
{
}

/// What is remembered of a full state are its peers with what it said of them,
/// and there is something to remember as soon as there is a peer.
pub proof fn law_peers_are_remembered(known: Entries<PeerInfoModel>, pubkey: Text)
    requires
        known.valid(),
    ensures
        known.has(pubkey) ==> last_state(known) is Some,
        last_state(known) matches Some(state) ==> state.peers == known,
        known.has(pubkey) && known.map[pubkey].allowed_ips is Some ==> original_ips(known, pubkey)
            == known.map[pubkey].allowed_ips->0,
        !known.has(pubkey) || known.map[pubkey].allowed_ips is None ==> original_ips(
            known,
            pubkey,
        ).len() == 0,
{
    if known.has(pubkey) {
        assert(known.keys.contains(pubkey));
    }
}

/// A peer to which addresses are added has those it had and the new ones, each
/// once; one from which they are taken has what is left, and none of them.
pub proof fn law_addresses_come_and_go(current: Seq<Text>, ips: Seq<Text>, ip: Text)
    ensures
        with_ips(current, ips).contains(ip) <==> current.contains(ip) || ips.contains(ip),
        with_ips(current, ips).no_duplicates(),
        lacking(current, ips).contains(ip) <==> current.contains(ip) && !ips.contains(ip),
{
    lemma_distinct(current + ips);
    lemma_same_elements(current + ips);
    lemma_lacking(current, ips, ip);
    if current.contains(ip) {
        let i = choose|i: int| 0 <= i < current.len() && current[i] == ip;
        assert((current + ips)[i] == ip);
    }
    if ips.contains(ip) {
        let i = choose|i: int| 0 <= i < ips.len() && ips[i] == ip;
        assert((current + ips)[current.len() + i] == ip);
    }
    if (current + ips).contains(ip) {
        let i = choose|i: int| 0 <= i < (current + ips).len() && (current + ips)[i] == ip;
        if i < current.len() {
            assert(current[i] == ip);
        } else {
            assert(ips[i - current.len()] == ip);
        }
    }
}

/// The command that sets addresses names the interface and the peer, and every
/// one of the addresses, in order and no other.
pub proof fn law_command_names_all_addresses(interface: Text, pubkey: Text, ips: Seq<Text>)
    requires
        ips.len() > 0,
        forall|i: int| 0 <= i < ips.len() ==> !(#[trigger] ips[i]).contains(','),
    ensures
        ({
            let args = allowed_args(interface, pubkey, ips);
            &&& args.len() == 6
            &&& args[1] == interface
            &&& args[3] == pubkey
            &&& args[4] == "allowed-ips"@
            &&& split_at(args[5], ',') == ips
        }),
{
    reveal_strlit(",");
    assert(","@ == seq![',']);
    law_split_undoes_join(ips, ',');
}

} // verus!
