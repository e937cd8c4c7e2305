//! One pass over the peers and the relays: who is handed to a relay, who comes
//! back, and who has to move because a relay is lost.
//!
//! The pass alternates decisions and commands. Each step decides what to do
//! next, and takes as `reply` whether the command of the step before went well.
use vstd::prelude::*;

use crate::list::{copied, holds, put};
use crate::peer::{add_or_update_peer, peer_plan, PeerInfo, PeerInfoModel, PeerPlan, PeerPlanModel};
use crate::relay::{
    discover_relay, get_last_snapshot, get_original_ips_from_snapshot, original_ips,
    relay_candidate, RELAY_FAIL_COUNT_MAX, RELAY_FAIL_THRESHOLD,
};
use crate::routes::RoutesModel;
use crate::snapshot::SnapshotModel;
use crate::state::{has_recent_handshake, recent, WgState, WgStateModel};
use crate::table::{Entries, Table};
use crate::text::{lemma_filter_contains, lemma_filter_push, ordered, Text};

verus! {

// ---------- what is remembered from pass to pass ----------

/// What is remembered of the relays: how many peers each has taken over, which
/// relay a peer was handed to, and how often in a row a peer was found lost.
pub struct Relays {
    pub load: Table<u32>,
    pub bound: Table<String>,
    pub fails: Table<u32>,
}

/// What a `Relays` says.
#[verifier::ext_equal]
pub struct RelaysModel {
    pub load: Entries<u32>,
    pub bound: Entries<Text>,
    pub fails: Entries<u32>,
}

impl DeepView for Relays {
    type V = RelaysModel;

    open spec fn deep_view(&self) -> RelaysModel {
        RelaysModel {
            load: self.load.deep_view(),
            bound: self.bound.deep_view(),
            fails: self.fails.deep_view(),
        }
    }
}

/// A count: zero for a name that has none.
pub open spec fn count_of(counts: Entries<u32>, k: Text) -> u32 {
    match counts.get(k) {
        Some(n) => n,
        None => 0,
    }
}

/// The counts with one more for that name.
pub open spec fn counted(counts: Entries<u32>, k: Text) -> Entries<u32> {
    counts.insert(k, (count_of(counts, k) + 1) as u32)
}

/// The counts with one less for that name, where it has a count over zero.
pub open spec fn discounted(counts: Entries<u32>, k: Text) -> Entries<u32> {
    match counts.get(k) {
        Some(n) => counts.insert(
            k,
            if n == 0 {
                0
            } else {
                (n - 1) as u32
            },
        ),
        None => counts,
    }
}

/// The counts with zero for that name, where it has one.
pub open spec fn zeroed(counts: Entries<u32>, k: Text) -> Entries<u32> {
    if counts.has(k) {
        counts.insert(k, 0)
    } else {
        counts
    }
}

/// There is room for one more in every count.
pub open spec fn countable(counts: Entries<u32>) -> bool {
    forall|k: Text| #[trigger] counts.has(k) ==> counts.map[k] < u32::MAX
}

/// The count of a name.
fn count(counts: &Table<u32>, k: &str) -> (n: u32)
    ensures
        n == count_of(counts.deep_view(), k@),
{
    match counts.get(k) {
        Some(n) => *n,
        None => 0,
    }
}

/// Counts one more for a name.
fn count_up(counts: &mut Table<u32>, k: &str)
    requires
        countable(old(counts).deep_view()),
    ensures
        final(counts).deep_view() == counted(old(counts).deep_view(), k@),
{
    let n: u32 = count(counts, k);
    counts.insert(k.to_owned(), n + 1);
}

/// Counts one less for a name that has a count.
fn count_down(counts: &mut Table<u32>, k: &str)
    ensures
        final(counts).deep_view() == discounted(old(counts).deep_view(), k@),
{
    let n: Option<u32> = match counts.get(k) {
        Some(n) => Some(*n),
        None => None,
    };
    match n {
        Some(n) => {
            counts.insert(k.to_owned(), n.saturating_sub(1));
        },
        None => {},
    }
}

/// Sets the count of a name that has one to zero.
fn count_anew(counts: &mut Table<u32>, k: &str)
    ensures
        final(counts).deep_view() == zeroed(old(counts).deep_view(), k@),
{
    if counts.contains_key(k) {
        counts.insert(k.to_owned(), 0);
    }
}

/// Whether there is room for one more in every count.
fn has_room(counts: &Table<u32>) -> (answer: bool)
    ensures
        answer == countable(counts.deep_view()),
{
    let ghost entries = counts.deep_view();
    let mut i: usize = 0;
    let n: usize = counts.len();
    while i < n
        invariant
            i <= n == entries.keys.len(),
            entries == counts.deep_view(),
            entries.valid(),
            forall|j: int| 0 <= j < i ==> entries.map[#[trigger] entries.keys[j]] < u32::MAX,
        decreases n - i,
    {
        if *counts.value_at(i) == u32::MAX {
            return false;
        }
        i = i + 1;
    }
    assert forall|k: Text| #[trigger] entries.has(k) implies entries.map[k] < u32::MAX by {
        let j = choose|j: int| 0 <= j < entries.keys.len() && entries.keys[j] == k;
        assert(entries.keys[j] == k);
    }
    true
}

impl RelaysModel {
    /// Nothing is remembered.
    pub open spec fn none() -> RelaysModel {
        RelaysModel { load: Entries::none(), bound: Entries::none(), fails: Entries::none() }
    }

    /// There is room for one more in every count.
    pub open spec fn countable(self) -> bool {
        countable(self.load) && countable(self.fails)
    }

    /// What is left when a peer is gone: where it was handed to a relay, the
    /// relay has one peer less, and its failures are forgotten.
    pub open spec fn without(self, pubkey: Text) -> RelaysModel {
        match self.bound.get(pubkey) {
            Some(relay) => RelaysModel {
                load: discounted(self.load, relay),
                bound: self.bound.remove(pubkey),
                fails: self.fails.remove(pubkey),
            },
            None => self,
        }
    }

    /// The peer is handed to the relay.
    pub open spec fn handed(self, peer: Text, relay: Text) -> RelaysModel {
        RelaysModel {
            load: counted(self.load, relay),
            bound: self.bound.insert(peer, relay),
            fails: self.fails,
        }
    }
}

impl Relays {
    /// Nothing is remembered.
    pub fn new() -> (relays: Relays)
        ensures
            relays.deep_view() == RelaysModel::none(),
    {
        Relays { load: Table::new(), bound: Table::new(), fails: Table::new() }
    }

    /// Whether there is room for one more in every count.
    pub fn is_countable(&self) -> (answer: bool)
        ensures
            answer == self.deep_view().countable(),
    {
        has_room(&self.load) && has_room(&self.fails)
    }

    /// Forgets a peer that is gone.
    pub fn forget(&mut self, pubkey: &str)
        ensures
            final(self).deep_view() == old(self).deep_view().without(pubkey@),
    {
        let ghost before = self.deep_view();
        match self.bound.remove(pubkey) {
            Some(relay) => {
                let _ = self.fails.remove(pubkey);
                count_down(&mut self.load, relay.as_str());
            },
            None => {
                assert(before.bound.remove(pubkey@).map =~= before.bound.map);
            },
        }
    }

    /// Hands a peer to a relay.
    fn hand(&mut self, peer: &str, relay: &str)
        requires
            old(self).deep_view().countable(),
        ensures
            final(self).deep_view() == old(self).deep_view().handed(peer@, relay@),
    {
        count_up(&mut self.load, relay);
        self.bound.insert(peer.to_owned(), relay.to_owned());
    }
}

// ---------- the choice of a relay ----------

/// A relay that may take a peer over: it shook hands lately, and is not the
/// one that is to be avoided.
pub open spec fn eligible(state: WgStateModel, now_secs: u64, avoid: Option<Text>, relay: Text) -> bool {
    recent(state, relay, RELAY_FAIL_THRESHOLD, now_secs) && avoid != Some(relay)
}

/// The first of the pool's eligible relays with the least load.
pub open spec fn best_relay(
    pool: Seq<Text>,
    load: Entries<u32>,
    state: WgStateModel,
    now_secs: u64,
    avoid: Option<Text>,
) -> Option<Text>
    decreases pool.len(),
{
    if pool.len() == 0 {
        None
    } else {
        let before = best_relay(pool.drop_last(), load, state, now_secs, avoid);
        let last = pool.last();
        if !eligible(state, now_secs, avoid, last) {
            before
        } else {
            match before {
                Some(best) => if count_of(load, last) < count_of(load, best) {
                    Some(last)
                } else {
                    Some(best)
                },
                None => Some(last),
            }
        }
    }
}

/// The first of the pool's eligible relays with the least load.
pub fn choose_relay(
    pool: &[String],
    load: &Table<u32>,
    state: &WgState,
    now_secs: u64,
    avoid: Option<&str>,
) -> (relay: Option<String>)
    ensures
        relay.deep_view() == best_relay(
            pool.deep_view(),
            load.deep_view(),
            state.deep_view(),
            now_secs,
            avoid.deep_view(),
        ),
{
    let ghost model = pool.deep_view();
    let mut best: Option<usize> = None;
    let mut i: usize = 0;
    assert(model.take(0) == Seq::<Text>::empty());
    while i < pool.len()
        invariant
            i <= pool@.len(),
            model == pool.deep_view(),
            best matches Some(b) ==> b < i,
            (match best {
                Some(b) => Some(model[b as int]),
                None => None,
            }) == best_relay(
                model.take(i as int),
                load.deep_view(),
                state.deep_view(),
                now_secs,
                avoid.deep_view(),
            ),
        decreases pool@.len() - i,
    {
        assert(model[i as int] == pool@[i as int]@);
        assert(model.take(i + 1).drop_last() == model.take(i as int));
        let avoided = match avoid {
            Some(name) => pool[i].as_str().eq(name),
            None => false,
        };
        if !avoided && has_recent_handshake(
            state,
            pool[i].as_str(),
            RELAY_FAIL_THRESHOLD,
            now_secs,
        ) {
            match best {
                Some(b) => {
                    assert(model[b as int] == pool@[b as int]@);
                    if count(load, pool[i].as_str()) < count(load, pool[b].as_str()) {
                        best = Some(i);
                    }
                },
                None => {
                    best = Some(i);
                },
            }
        }
        i = i + 1;
    }
    assert(model.take(i as int) == model);
    match best {
        Some(b) => {
            assert(model[b as int] == pool@[b as int]@);
            Some(pool[b].clone())
        },
        None => None,
    }
}

/// The relay that is chosen is an eligible one of the pool, and none of these
/// has less load; where there is an eligible one, one is chosen.
pub proof fn law_least_load(
    pool: Seq<Text>,
    load: Entries<u32>,
    state: WgStateModel,
    now_secs: u64,
    avoid: Option<Text>,
)
    ensures
        match best_relay(pool, load, state, now_secs, avoid) {
            Some(best) => pool.contains(best) && eligible(state, now_secs, avoid, best)
                && forall|other: Text| #[trigger]
                pool.contains(other) && eligible(state, now_secs, avoid, other) ==> count_of(
                    load,
                    best,
                ) <= count_of(load, other),
            None => forall|other: Text| #[trigger]
                pool.contains(other) ==> !eligible(state, now_secs, avoid, other),
        },
    decreases pool.len(),
{
    if pool.len() > 0 {
        let front = pool.drop_last();
        law_least_load(front, load, state, now_secs, avoid);
        assert(pool == front.push(pool.last()));
        assert(pool[pool.len() - 1] == pool.last());
        assert forall|other: Text| pool.contains(other) <==> front.contains(other) || other
            == pool.last() by {
            if pool.contains(other) {
                let i = choose|i: int| 0 <= i < pool.len() && pool[i] == other;
                if i < front.len() {
                    assert(front[i] == other);
                }
            }
            if front.contains(other) {
                let i = choose|i: int| 0 <= i < front.len() && front[i] == other;
                assert(pool[i] == other);
            }
        }
    }
}

// ---------- the pass ----------

/// A command that a step asks for.
pub enum RelayAction {
    AddIps { relay: String, ips: Vec<String> },
    RemoveIps { relay: String, ips: Vec<String> },
    RemovePeer { peer: String },
    Restore { plan: PeerPlan },
}

/// What a `RelayAction` says.
#[verifier::ext_equal]
#[allow(inconsistent_fields)]
pub enum ActionModel {
    AddIps { relay: Text, ips: Seq<Text> },
    RemoveIps { relay: Text, ips: Seq<Text> },
    RemovePeer { peer: Text },
    Restore { plan: PeerPlanModel },
}

impl DeepView for RelayAction {
    type V = ActionModel;

    open spec fn deep_view(&self) -> ActionModel {
        match *self {
            RelayAction::AddIps { relay, ips } => ActionModel::AddIps {
                relay: relay@,
                ips: ips.deep_view(),
            },
            RelayAction::RemoveIps { relay, ips } => ActionModel::RemoveIps {
                relay: relay@,
                ips: ips.deep_view(),
            },
            RelayAction::RemovePeer { peer } => ActionModel::RemovePeer { peer: peer@ },
            RelayAction::Restore { plan } => ActionModel::Restore { plan: plan.deep_view() },
        }
    }
}

/// Where a pass stands. `next` counts the peers of the interface and, from
/// `Relays` on, the relays of the pool; `turn` counts the peers that move.
///
/// - `Peers`: the next peer is to be looked at.
/// - `Adding`: the relay was asked to take the peer's addresses.
/// - `Removing`: the relay took them, and the peer was to be removed.
/// - `Released`: the relay was to give back the addresses of a peer that is
///   there again.
/// - `Restoring`: the peer was to be set up again.
/// - `Relays`: the next relay is to be looked at.
/// - `Moving`: the relay is lost, and the next of its peers is to move.
/// - `Choosing`: the lost relay was to give back the addresses of that peer.
/// - `Joining`: another relay was asked to take them.
/// - `Done`: nothing is left to do.
pub enum Stage {
    Peers { next: usize },
    Adding { next: usize, relay: String, peer: String, ips: Vec<String> },
    Removing { next: usize, relay: String, peer: String, ips: Vec<String> },
    Released { next: usize, relay: String, peer: String },
    Restoring { next: usize, relay: String, peer: String },
    Relays { next: usize },
    Moving { next: usize, peers: Vec<String>, turn: usize },
    Choosing { next: usize, peers: Vec<String>, turn: usize },
    Joining { next: usize, peers: Vec<String>, turn: usize, target: String },
    Done,
}

/// What a `Stage` says.
#[verifier::ext_equal]
#[allow(inconsistent_fields)]
pub enum StageModel {
    Peers { next: nat },
    Adding { next: nat, relay: Text, peer: Text, ips: Seq<Text> },
    Removing { next: nat, relay: Text, peer: Text, ips: Seq<Text> },
    Released { next: nat, relay: Text, peer: Text },
    Restoring { next: nat, relay: Text, peer: Text },
    Relays { next: nat },
    Moving { next: nat, peers: Seq<Text>, turn: nat },
    Choosing { next: nat, peers: Seq<Text>, turn: nat },
    Joining { next: nat, peers: Seq<Text>, turn: nat, target: Text },
    Done,
}

impl DeepView for Stage {
    type V = StageModel;

    open spec fn deep_view(&self) -> StageModel {
        match *self {
            Stage::Peers { next } => StageModel::Peers { next: next as nat },
            Stage::Adding { next, relay, peer, ips } => StageModel::Adding {
                next: next as nat,
                relay: relay@,
                peer: peer@,
                ips: ips.deep_view(),
            },
            Stage::Removing { next, relay, peer, ips } => StageModel::Removing {
                next: next as nat,
                relay: relay@,
                peer: peer@,
                ips: ips.deep_view(),
            },
            Stage::Released { next, relay, peer } => StageModel::Released {
                next: next as nat,
                relay: relay@,
                peer: peer@,
            },
            Stage::Restoring { next, relay, peer } => StageModel::Restoring {
                next: next as nat,
                relay: relay@,
                peer: peer@,
            },
            Stage::Relays { next } => StageModel::Relays { next: next as nat },
            Stage::Moving { next, peers, turn } => StageModel::Moving {
                next: next as nat,
                peers: peers.deep_view(),
                turn: turn as nat,
            },
            Stage::Choosing { next, peers, turn } => StageModel::Choosing {
                next: next as nat,
                peers: peers.deep_view(),
                turn: turn as nat,
            },
            Stage::Joining { next, peers, turn, target } => StageModel::Joining {
                next: next as nat,
                peers: peers.deep_view(),
                turn: turn as nat,
                target: target@,
            },
            Stage::Done => StageModel::Done,
        }
    }
}

/// What a pass works on, which stays as it is until the pass is done.
pub struct Scene<'a> {
    pub interface: &'a str,
    pub local_pubkey: &'a str,
    pub state: &'a WgState,
    pub pool: &'a Vec<String>,
    pub known: &'a Table<PeerInfo>,
}

/// What a `Scene` says.
#[verifier::ext_equal]
pub struct SceneModel {
    pub interface: Text,
    pub local_pubkey: Text,
    pub state: WgStateModel,
    pub pool: Seq<Text>,
    pub known: Entries<PeerInfoModel>,
}

impl<'a> DeepView for Scene<'a> {
    type V = SceneModel;

    open spec fn deep_view(&self) -> SceneModel {
        SceneModel {
            interface: self.interface@,
            local_pubkey: self.local_pubkey@,
            state: self.state.deep_view(),
            pool: self.pool.deep_view(),
            known: self.known.deep_view(),
        }
    }
}

/// The peer is with that relay.
pub open spec fn is_with(relays: RelaysModel, relay: Text) -> spec_fn(Text) -> bool {
    |peer: Text| relays.bound.map[peer] == relay
}

/// What a step leads to.
#[verifier::ext_equal]
pub struct Outcome {
    pub relays: RelaysModel,
    pub stage: StageModel,
    pub action: Option<ActionModel>,
}

impl SceneModel {
    /// Where a pass begins. Without relays it is done already.
    pub open spec fn beginning(self) -> StageModel {
        if self.pool.len() == 0 {
            StageModel::Done
        } else {
            StageModel::Peers { next: 0 }
        }
    }

    /// The peer shook hands lately.
    pub open spec fn alive(self, pubkey: Text, now_secs: u64) -> bool {
        recent(self.state, pubkey, RELAY_FAIL_THRESHOLD, now_secs)
    }

    /// The step on to the next peer.
    pub open spec fn past_peer(self, relays: RelaysModel, next: nat) -> Outcome {
        Outcome { relays, stage: StageModel::Peers { next: next + 1 }, action: None }
    }

    /// A look at a peer that is lost. It is handed over where it has been lost
    /// often enough in a row, has no relay yet, there is a relay for it, and
    /// its addresses are known.
    pub open spec fn at_lost_peer(
        self,
        relays: RelaysModel,
        next: nat,
        peer: Text,
        now_secs: u64,
    ) -> Outcome {
        let after = RelaysModel { fails: counted(relays.fails, peer), ..relays };
        let ips = original_ips(self.known, peer);
        let relay = best_relay(self.pool, relays.load, self.state, now_secs, None);
        if count_of(after.fails, peer) >= RELAY_FAIL_COUNT_MAX && !relays.bound.has(peer) && relay
            is Some && ips.len() > 0 {
            Outcome {
                relays: after,
                stage: StageModel::Adding { next, relay: relay->0, peer, ips },
                action: Some(ActionModel::AddIps { relay: relay->0, ips }),
            }
        } else {
            self.past_peer(after, next)
        }
    }

    /// A look at a peer that is there. Where it was handed to a relay, that
    /// ends, and the relay gives the addresses back.
    pub open spec fn at_live_peer(self, relays: RelaysModel, next: nat, peer: Text) -> Outcome {
        match relays.bound.get(peer) {
            Some(relay) => Outcome {
                relays: RelaysModel { bound: relays.bound.remove(peer), ..relays },
                stage: StageModel::Released { next, relay, peer },
                action: Some(
                    ActionModel::RemoveIps { relay, ips: original_ips(self.known, peer) },
                ),
            },
            None => self.past_peer(
                RelaysModel { fails: zeroed(relays.fails, peer), ..relays },
                next,
            ),
        }
    }

    /// A look at the next peer. The own key and the relays are passed over.
    pub open spec fn at_peer(self, relays: RelaysModel, next: nat, now_secs: u64) -> Outcome {
        if next >= self.state.peers.keys.len() {
            Outcome { relays, stage: StageModel::Relays { next: 0 }, action: None }
        } else {
            let peer = self.state.peers.keys[next as int];
            if self.pool.contains(peer) || peer == self.local_pubkey {
                self.past_peer(relays, next)
            } else if self.alive(peer, now_secs) {
                self.at_live_peer(relays, next, peer)
            } else {
                self.at_lost_peer(relays, next, peer, now_secs)
            }
        }
    }

    /// The relay takes the addresses back that it was just given.
    pub open spec fn taken_back(
        self,
        relays: RelaysModel,
        stage: StageModel,
        relay: Text,
        ips: Seq<Text>,
    ) -> Outcome {
        Outcome { relays, stage, action: Some(ActionModel::RemoveIps { relay, ips }) }
    }

    /// The relay has the addresses or not. Where it has, and is still there,
    /// the peer is removed.
    pub open spec fn after_adding(
        self,
        relays: RelaysModel,
        next: nat,
        relay: Text,
        peer: Text,
        ips: Seq<Text>,
        reply: bool,
        now_secs: u64,
    ) -> Outcome {
        if !reply {
            self.past_peer(relays, next)
        } else if !relays.bound.has(peer) && self.alive(relay, now_secs) {
            Outcome {
                relays,
                stage: StageModel::Removing { next, relay, peer, ips },
                action: Some(ActionModel::RemovePeer { peer }),
            }
        } else {
            self.taken_back(relays, StageModel::Peers { next: next + 1 }, relay, ips)
        }
    }

    /// The peer is removed or not. Where it is, it counts as handed over.
    pub open spec fn after_removing(
        self,
        relays: RelaysModel,
        next: nat,
        relay: Text,
        peer: Text,
        ips: Seq<Text>,
        reply: bool,
    ) -> Outcome {
        if reply {
            let handed = relays.handed(peer, relay);
            self.past_peer(RelaysModel { fails: zeroed(handed.fails, peer), ..handed }, next)
        } else {
            self.taken_back(relays, StageModel::Peers { next: next + 1 }, relay, ips)
        }
    }

    /// The relay gave the addresses of a peer back. The peer is set up again
    /// where it still counts as handed to that relay; where it does not, the
    /// pass is over.
    pub open spec fn after_release(
        self,
        relays: RelaysModel,
        next: nat,
        relay: Text,
        peer: Text,
    ) -> Outcome {
        if relays.bound.get(peer) != Some(relay) {
            Outcome { relays, stage: StageModel::Done, action: None }
        } else {
            match self.known.get(peer) {
                Some(info) => Outcome {
                    relays,
                    stage: StageModel::Restoring { next, relay, peer },
                    action: Some(
                        ActionModel::Restore {
                            plan: peer_plan(
                                self.interface,
                                peer,
                                info.endpoint,
                                info.allowed_ips,
                                info.persistent_keepalive,
                                info.preshared_key,
                                self.state,
                            ),
                        },
                    ),
                },
                None => self.past_peer(
                    RelaysModel { fails: zeroed(relays.fails, peer), ..relays },
                    next,
                ),
            }
        }
    }

    /// The peer is set up again or not.
    pub open spec fn after_restoring(
        self,
        relays: RelaysModel,
        next: nat,
        relay: Text,
        peer: Text,
        reply: bool,
    ) -> Outcome {
        let after = if reply {
            RelaysModel {
                load: discounted(relays.load, relay),
                fails: relays.fails.remove(peer),
                ..relays
            }
        } else {
            relays
        };
        self.past_peer(RelaysModel { fails: zeroed(after.fails, peer), ..after }, next)
    }

    /// The peers that were handed to that relay.
    pub open spec fn handed_to(self, relays: RelaysModel, relay: Text) -> Seq<Text> {
        relays.bound.keys.filter(is_with(relays, relay))
    }

    /// The relay's load is forgotten, and the next relay is looked at.
    pub open spec fn past_relay(self, relays: RelaysModel, next: nat) -> Outcome {
        Outcome {
            relays: RelaysModel {
                load: relays.load.remove(self.pool[next as int]),
                ..relays
            },
            stage: StageModel::Relays { next: next + 1 },
            action: None,
        }
    }

    /// A look at the next relay. The peers of a lost one have to move.
    pub open spec fn at_relay(self, relays: RelaysModel, next: nat, now_secs: u64) -> Outcome {
        if next >= self.pool.len() {
            Outcome { relays, stage: StageModel::Done, action: None }
        } else {
            let peers = self.handed_to(relays, self.pool[next as int]);
            if self.alive(self.pool[next as int], now_secs) {
                Outcome { relays, stage: StageModel::Relays { next: next + 1 }, action: None }
            } else if peers.len() == 0 {
                self.past_relay(relays, next)
            } else {
                Outcome { relays, stage: StageModel::Moving { next, peers, turn: 0 }, action: None }
            }
        }
    }

    /// The next peer leaves the lost relay.
    pub open spec fn at_moving(
        self,
        relays: RelaysModel,
        next: nat,
        peers: Seq<Text>,
        turn: nat,
    ) -> Outcome {
        if turn >= peers.len() {
            self.past_relay(relays, next)
        } else {
            Outcome {
                relays,
                stage: StageModel::Choosing { next, peers, turn },
                action: Some(
                    ActionModel::RemoveIps {
                        relay: self.pool[next as int],
                        ips: original_ips(self.known, peers[turn as int]),
                    },
                ),
            }
        }
    }

    /// The step on to the next peer that moves.
    pub open spec fn past_mover(
        self,
        relays: RelaysModel,
        next: nat,
        peers: Seq<Text>,
        turn: nat,
    ) -> Outcome {
        Outcome {
            relays,
            stage: StageModel::Moving { next, peers, turn: turn + 1 },
            action: None,
        }
    }

    /// Another relay is sought for the peer.
    pub open spec fn at_choosing(
        self,
        relays: RelaysModel,
        next: nat,
        peers: Seq<Text>,
        turn: nat,
        now_secs: u64,
    ) -> Outcome {
        match best_relay(
            self.pool,
            relays.load,
            self.state,
            now_secs,
            Some(self.pool[next as int]),
        ) {
            Some(target) => Outcome {
                relays,
                stage: StageModel::Joining { next, peers, turn, target },
                action: Some(
                    ActionModel::AddIps {
                        relay: target,
                        ips: original_ips(self.known, peers[turn as int]),
                    },
                ),
            },
            None => self.past_mover(relays, next, peers, turn),
        }
    }

    /// The other relay has the addresses or not. The peer is handed to it
    /// where it counts as handed to none and the relay is there; else that
    /// relay gives them back.
    pub open spec fn after_joining(
        self,
        relays: RelaysModel,
        next: nat,
        peers: Seq<Text>,
        turn: nat,
        target: Text,
        reply: bool,
        now_secs: u64,
    ) -> Outcome {
        let peer = peers[turn as int];
        if !reply {
            self.past_mover(relays, next, peers, turn)
        } else if !relays.bound.has(peer) && self.alive(target, now_secs) {
            self.past_mover(relays.handed(peer, target), next, peers, turn)
        } else {
            self.taken_back(
                relays,
                StageModel::Moving { next, peers, turn: turn + 1 },
                target,
                original_ips(self.known, peer),
            )
        }
    }

    /// One step of a pass.
    pub open spec fn step(
        self,
        relays: RelaysModel,
        stage: StageModel,
        reply: bool,
        now_secs: u64,
    ) -> Outcome {
        match stage {
            StageModel::Peers { next } => self.at_peer(relays, next, now_secs),
            StageModel::Adding { next, relay, peer, ips } => self.after_adding(
                relays,
                next,
                relay,
                peer,
                ips,
                reply,
                now_secs,
            ),
            StageModel::Removing { next, relay, peer, ips } => self.after_removing(
                relays,
                next,
                relay,
                peer,
                ips,
                reply,
            ),
            StageModel::Released { next, relay, peer } => self.after_release(
                relays,
                next,
                relay,
                peer,
            ),
            StageModel::Restoring { next, relay, peer } => self.after_restoring(
                relays,
                next,
                relay,
                peer,
                reply,
            ),
            StageModel::Relays { next } => self.at_relay(relays, next, now_secs),
            StageModel::Moving { next, peers, turn } => self.at_moving(relays, next, peers, turn),
            StageModel::Choosing { next, peers, turn } => self.at_choosing(
                relays,
                next,
                peers,
                turn,
                now_secs,
            ),
            StageModel::Joining { next, peers, turn, target } => self.after_joining(
                relays,
                next,
                peers,
                turn,
                target,
                reply,
                now_secs,
            ),
            StageModel::Done => Outcome { relays, stage: StageModel::Done, action: None },
        }
    }

    /// The indices of the stage point at peers and relays that are there.
    pub open spec fn holds(self, stage: StageModel) -> bool {
        match stage {
            StageModel::Peers { next } => next <= self.state.peers.keys.len(),
            StageModel::Adding { next, relay: _, peer: _, ips: _ } => next
                < self.state.peers.keys.len(),
            StageModel::Removing { next, relay: _, peer: _, ips: _ } => next
                < self.state.peers.keys.len(),
            StageModel::Released { next, relay: _, peer: _ } => next < self.state.peers.keys.len(),
            StageModel::Restoring { next, relay: _, peer: _ } => next < self.state.peers.keys.len(),
            StageModel::Relays { next } => next <= self.pool.len(),
            StageModel::Moving { next, peers, turn } => next < self.pool.len() && turn
                <= peers.len(),
            StageModel::Choosing { next, peers, turn } => next < self.pool.len() && turn
                < peers.len(),
            StageModel::Joining { next, peers, turn, target: _ } => next < self.pool.len() && turn
                < peers.len(),
            StageModel::Done => true,
        }
    }
}

/// The part of an outcome that is not remembered.
type Move = (Stage, Option<RelayAction>);

/// Whether a move and the memory are that outcome.
spec fn moves(to: Move, relays: RelaysModel, outcome: Outcome) -> bool {
    &&& to.0.deep_view() == outcome.stage
    &&& to.1.deep_view() == outcome.action
    &&& relays == outcome.relays
}

impl<'a> Scene<'a> {
    /// Whether the peer shook hands lately.
    fn is_alive(&self, pubkey: &str, now_secs: u64) -> (answer: bool)
        ensures
            answer == self.deep_view().alive(pubkey@, now_secs),
    {
        has_recent_handshake(self.state, pubkey, RELAY_FAIL_THRESHOLD, now_secs)
    }

    /// A look at a peer that is lost.
    fn look_at_lost_peer(
        &self,
        relays: &mut Relays,
        next: usize,
        peer: &str,
        now_secs: u64,
    ) -> (to: Move)
        requires
            next < self.deep_view().state.peers.keys.len() <= usize::MAX,
            old(relays).deep_view().countable(),
        ensures
            moves(
                to,
                final(relays).deep_view(),
                self.deep_view().at_lost_peer(
                    old(relays).deep_view(),
                    next as nat,
                    peer@,
                    now_secs,
                ),
            ),
    {
        count_up(&mut relays.fails, peer);
        if count(&relays.fails, peer) >= RELAY_FAIL_COUNT_MAX && !relays.bound.contains_key(peer) {
            match choose_relay(self.pool, &relays.load, self.state, now_secs, None) {
                Some(relay) => {
                    let ips = get_original_ips_from_snapshot(self.known, peer);
                    assert(ips@.len() == ips.deep_view().len());
                    if ips.len() > 0 {
                        let asked = copied(&ips);
                        let action = RelayAction::AddIps { relay: relay.clone(), ips: asked };
                        let stage = Stage::Adding { next, relay, peer: peer.to_owned(), ips };
                        return (stage, Some(action));
                    }
                },
                None => {},
            }
        }
        (Stage::Peers { next: next + 1 }, None)
    }

    /// A look at a peer that is there.
    fn look_at_live_peer(&self, relays: &mut Relays, next: usize, peer: &str) -> (to: Move)
        requires
            next < self.deep_view().state.peers.keys.len() <= usize::MAX,
        ensures
            moves(
                to,
                final(relays).deep_view(),
                self.deep_view().at_live_peer(old(relays).deep_view(), next as nat, peer@),
            ),
    {
        let ghost before = relays.deep_view();
        match relays.bound.remove(peer) {
            Some(relay) => {
                let ips = get_original_ips_from_snapshot(self.known, peer);
                let action = RelayAction::RemoveIps { relay: relay.clone(), ips };
                (Stage::Released { next, relay, peer: peer.to_owned() }, Some(action))
            },
            None => {
                assert(before.bound.remove(peer@).map =~= before.bound.map);
                count_anew(&mut relays.fails, peer);
                (Stage::Peers { next: next + 1 }, None)
            },
        }
    }

    /// A look at the next peer.
    fn look_at_peer(&self, relays: &mut Relays, next: usize, now_secs: u64) -> (to: Move)
        requires
            next <= self.deep_view().state.peers.keys.len(),
            old(relays).deep_view().countable(),
        ensures
            moves(
                to,
                final(relays).deep_view(),
                self.deep_view().at_peer(old(relays).deep_view(), next as nat, now_secs),
            ),
    {
        let n: usize = self.state.peers.len();
        if next >= n {
            return (Stage::Relays { next: 0 }, None);
        }
        let peer = self.state.peers.key_at(next);
        if holds(self.pool, peer.as_str()) || peer.as_str().eq(self.local_pubkey) {
            (Stage::Peers { next: next + 1 }, None)
        } else if self.is_alive(peer.as_str(), now_secs) {
            self.look_at_live_peer(relays, next, peer.as_str())
        } else {
            self.look_at_lost_peer(relays, next, peer.as_str(), now_secs)
        }
    }

    /// What follows when the relay has the addresses or not.
    fn go_on_adding(
        &self,
        relays: &Relays,
        next: usize,
        relay: String,
        peer: String,
        ips: Vec<String>,
        reply: bool,
        now_secs: u64,
    ) -> (to: Move)
        requires
            next < usize::MAX,
        ensures
            moves(
                to,
                relays.deep_view(),
                self.deep_view().after_adding(
                    relays.deep_view(),
                    next as nat,
                    relay@,
                    peer@,
                    ips.deep_view(),
                    reply,
                    now_secs,
                ),
            ),
    {
        if !reply {
            (Stage::Peers { next: next + 1 }, None)
        } else if !relays.bound.contains_key(peer.as_str()) && self.is_alive(
            relay.as_str(),
            now_secs,
        ) {
            let action = RelayAction::RemovePeer { peer: peer.clone() };
            (Stage::Removing { next, relay, peer, ips }, Some(action))
        } else {
            (Stage::Peers { next: next + 1 }, Some(RelayAction::RemoveIps { relay, ips }))
        }
    }

    /// What follows when the peer is removed or not.
    fn go_on_removing(
        &self,
        relays: &mut Relays,
        next: usize,
        relay: String,
        peer: String,
        ips: Vec<String>,
        reply: bool,
    ) -> (to: Move)
        requires
            next < usize::MAX,
            old(relays).deep_view().countable(),
        ensures
            moves(
                to,
                final(relays).deep_view(),
                self.deep_view().after_removing(
                    old(relays).deep_view(),
                    next as nat,
                    relay@,
                    peer@,
                    ips.deep_view(),
                    reply,
                ),
            ),
    {
        if reply {
            relays.hand(peer.as_str(), relay.as_str());
            count_anew(&mut relays.fails, peer.as_str());
            (Stage::Peers { next: next + 1 }, None)
        } else {
            (Stage::Peers { next: next + 1 }, Some(RelayAction::RemoveIps { relay, ips }))
        }
    }

    /// What follows when the relay gave the addresses of a peer back.
    fn go_on_releasing(&self, relays: &mut Relays, next: usize, relay: String, peer: String) -> (to:
        Move)
        requires
            next < usize::MAX,
        ensures
            moves(
                to,
                final(relays).deep_view(),
                self.deep_view().after_release(
                    old(relays).deep_view(),
                    next as nat,
                    relay@,
                    peer@,
                ),
            ),
    {
        let still = match relays.bound.get(peer.as_str()) {
            Some(assigned) => assigned.as_str().eq(relay.as_str()),
            None => false,
        };
        if !still {
            return (Stage::Done, None);
        }
        match self.known.get(peer.as_str()) {
            Some(info) => {
                let plan = add_or_update_peer(
                    self.interface,
                    peer.as_str(),
                    &info.endpoint,
                    &info.allowed_ips,
                    info.persistent_keepalive,
                    &info.preshared_key,
                    self.state,
                );
                (Stage::Restoring { next, relay, peer }, Some(RelayAction::Restore { plan }))
            },
            None => {
                count_anew(&mut relays.fails, peer.as_str());
                (Stage::Peers { next: next + 1 }, None)
            },
        }
    }

    /// What follows when the peer is set up again or not.
    fn go_on_restoring(
        &self,
        relays: &mut Relays,
        next: usize,
        relay: String,
        peer: String,
        reply: bool,
    ) -> (to: Move)
        requires
            next < usize::MAX,
        ensures
            moves(
                to,
                final(relays).deep_view(),
                self.deep_view().after_restoring(
                    old(relays).deep_view(),
                    next as nat,
                    relay@,
                    peer@,
                    reply,
                ),
            ),
    {
        if reply {
            count_down(&mut relays.load, relay.as_str());
            let _ = relays.fails.remove(peer.as_str());
        }
        count_anew(&mut relays.fails, peer.as_str());
        (Stage::Peers { next: next + 1 }, None)
    }

    /// The peers that were handed to that relay.
    fn peers_of(&self, relays: &Relays, relay: &str) -> (peers: Vec<String>)
        ensures
            peers.deep_view() == self.deep_view().handed_to(relays.deep_view(), relay@),
    {
        let ghost bound = relays.bound.deep_view();
        let ghost keep = is_with(relays.deep_view(), relay@);
        let mut peers: Vec<String> = Vec::new();
        let mut i: usize = 0;
        let n: usize = relays.bound.len();
        proof {
            reveal(Seq::filter);
            assert(bound.keys.take(0) == Seq::<Text>::empty());
        }
        while i < n
            invariant
                i <= n == bound.keys.len(),
                bound == relays.bound.deep_view(),
                keep == is_with(relays.deep_view(), relay@),
                peers.deep_view() == bound.keys.take(i as int).filter(keep),
            decreases n - i,
        {
            proof {
                let front = bound.keys.take(i as int);
                assert(bound.keys.take(i + 1) == front.push(bound.keys[i as int]));
                lemma_filter_push(front, keep, bound.keys[i as int]);
            }
            if relays.bound.value_at(i).as_str().eq(relay) {
                put(&mut peers, relays.bound.key_at(i).clone());
            }
            i = i + 1;
        }
        assert(bound.keys.take(i as int) == bound.keys);
        peers
    }

    /// A look at the next relay.
    fn look_at_relay(&self, relays: &mut Relays, next: usize, now_secs: u64) -> (to: Move)
        requires
            next <= self.deep_view().pool.len(),
        ensures
            moves(
                to,
                final(relays).deep_view(),
                self.deep_view().at_relay(old(relays).deep_view(), next as nat, now_secs),
            ),
    {
        assert(self.pool@.len() == self.pool.deep_view().len());
        if next >= self.pool.len() {
            return (Stage::Done, None);
        }
        assert(self.pool.deep_view()[next as int] == self.pool@[next as int]@);
        if self.is_alive(self.pool[next].as_str(), now_secs) {
            return (Stage::Relays { next: next + 1 }, None);
        }
        let peers = self.peers_of(relays, self.pool[next].as_str());
        assert(peers@.len() == peers.deep_view().len());
        if peers.len() == 0 {
            let _ = relays.load.remove(self.pool[next].as_str());
            (Stage::Relays { next: next + 1 }, None)
        } else {
            (Stage::Moving { next, peers, turn: 0 }, None)
        }
    }

    /// The next peer leaves the lost relay.
    fn move_on(&self, relays: &mut Relays, next: usize, peers: Vec<String>, turn: usize) -> (to: Move)
        requires
            next < self.deep_view().pool.len(),
            turn <= peers.deep_view().len(),
        ensures
            moves(
                to,
                final(relays).deep_view(),
                self.deep_view().at_moving(
                    old(relays).deep_view(),
                    next as nat,
                    peers.deep_view(),
                    turn as nat,
                ),
            ),
    {
        assert(self.pool.deep_view()[next as int] == self.pool@[next as int]@);
        assert(peers@.len() == peers.deep_view().len());
        assert(next < self.pool.len());
        if turn >= peers.len() {
            let _ = relays.load.remove(self.pool[next].as_str());
            return (Stage::Relays { next: next + 1 }, None);
        }
        assert(peers.deep_view()[turn as int] == peers@[turn as int]@);
        let ips = get_original_ips_from_snapshot(self.known, peers[turn].as_str());
        let action = RelayAction::RemoveIps { relay: self.pool[next].clone(), ips };
        (Stage::Choosing { next, peers, turn }, Some(action))
    }

    /// Another relay is sought for the peer.
    fn seek_relay(
        &self,
        relays: &Relays,
        next: usize,
        peers: Vec<String>,
        turn: usize,
        now_secs: u64,
    ) -> (to: Move)
        requires
            next < self.deep_view().pool.len(),
            turn < peers.deep_view().len(),
        ensures
            moves(
                to,
                relays.deep_view(),
                self.deep_view().at_choosing(
                    relays.deep_view(),
                    next as nat,
                    peers.deep_view(),
                    turn as nat,
                    now_secs,
                ),
            ),
    {
        assert(self.pool.deep_view()[next as int] == self.pool@[next as int]@);
        assert(peers.deep_view()[turn as int] == peers@[turn as int]@);
        assert(turn < peers.len());
        let lost = self.pool[next].as_str();
        match choose_relay(self.pool, &relays.load, self.state, now_secs, Some(lost)) {
            Some(target) => {
                let ips = get_original_ips_from_snapshot(self.known, peers[turn].as_str());
                let action = RelayAction::AddIps { relay: target.clone(), ips };
                (Stage::Joining { next, peers, turn, target }, Some(action))
            },
            None => (Stage::Moving { next, peers, turn: turn + 1 }, None),
        }
    }

    /// What follows when the other relay has the addresses or not.
    fn go_on_joining(
        &self,
        relays: &mut Relays,
        next: usize,
        peers: Vec<String>,
        turn: usize,
        target: String,
        reply: bool,
        now_secs: u64,
    ) -> (to: Move)
        requires
            turn < peers.deep_view().len(),
            old(relays).deep_view().countable(),
        ensures
            moves(
                to,
                final(relays).deep_view(),
                self.deep_view().after_joining(
                    old(relays).deep_view(),
                    next as nat,
                    peers.deep_view(),
                    turn as nat,
                    target@,
                    reply,
                    now_secs,
                ),
            ),
    {
        assert(peers.deep_view()[turn as int] == peers@[turn as int]@);
        assert(turn < peers.len());
        if !reply {
            return (Stage::Moving { next, peers, turn: turn + 1 }, None);
        }
        if !relays.bound.contains_key(peers[turn].as_str()) && self.is_alive(
            target.as_str(),
            now_secs,
        ) {
            relays.hand(peers[turn].as_str(), target.as_str());
            (Stage::Moving { next, peers, turn: turn + 1 }, None)
        } else {
            let ips = get_original_ips_from_snapshot(self.known, peers[turn].as_str());
            let action = RelayAction::RemoveIps { relay: target, ips };
            (Stage::Moving { next, peers, turn: turn + 1 }, Some(action))
        }
    }
}

/// A pass and where it stands.
pub struct RelayPass<'a> {
    scene: Scene<'a>,
    stage: Stage,
}

impl<'a> RelayPass<'a> {
    #[verifier::type_invariant]
    closed spec fn in_place(self) -> bool {
        self.scene.deep_view().holds(self.stage.deep_view())
    }

    /// What the pass works on.
    pub closed spec fn scene(self) -> SceneModel {
        self.scene.deep_view()
    }

    /// Where the pass stands.
    pub closed spec fn stage(self) -> StageModel {
        self.stage.deep_view()
    }

    /// A pass that is about to begin. Without relays it is done already.
    pub fn new(scene: Scene<'a>) -> (pass: RelayPass<'a>)
        ensures
            pass.scene() == scene.deep_view(),
            pass.stage() == scene.deep_view().beginning(),
    {
        assert(scene.pool@.len() == scene.pool.deep_view().len());
        if scene.pool.len() == 0 {
            RelayPass { scene, stage: Stage::Done }
        } else {
            RelayPass { scene, stage: Stage::Peers { next: 0 } }
        }
    }

    /// Whether nothing is left to do.
    pub fn is_done(&self) -> (answer: bool)
        ensures
            answer == (self.stage() is Done),
    {
        match self.stage {
            Stage::Done => true,
            _ => false,
        }
    }
}

/// One step of a pass. `reply` says whether the command went well that the
/// step before asked for.
pub fn check_and_apply_relay(
    pass: &mut RelayPass,
    relays: &mut Relays,
    reply: bool,
    now_secs: u64,
) -> (action: Option<RelayAction>)
    requires
        old(relays).deep_view().countable(),
    ensures
        final(pass).scene() == old(pass).scene(),
        ({
            let outcome = old(pass).scene().step(
                old(relays).deep_view(),
                old(pass).stage(),
                reply,
                now_secs,
            );
            &&& final(pass).stage() == outcome.stage
            &&& final(relays).deep_view() == outcome.relays
            &&& action.deep_view() == outcome.action
        }),
{
    proof {
        use_type_invariant(&*pass);
    }
    let mut stage = Stage::Done;
    std::mem::swap(&mut stage, &mut pass.stage);
    let _ = pass.scene.state.peers.len();
    assert(pass.scene.pool@.len() == pass.scene.pool.deep_view().len());
    let (to, action) = match stage {
        Stage::Peers { next } => pass.scene.look_at_peer(relays, next, now_secs),
        Stage::Adding { next, relay, peer, ips } => pass.scene.go_on_adding(
            relays,
            next,
            relay,
            peer,
            ips,
            reply,
            now_secs,
        ),
        Stage::Removing { next, relay, peer, ips } => pass.scene.go_on_removing(
            relays,
            next,
            relay,
            peer,
            ips,
            reply,
        ),
        Stage::Released { next, relay, peer } => pass.scene.go_on_releasing(
            relays,
            next,
            relay,
            peer,
        ),
        Stage::Restoring { next, relay, peer } => pass.scene.go_on_restoring(
            relays,
            next,
            relay,
            peer,
            reply,
        ),
        Stage::Relays { next } => pass.scene.look_at_relay(relays, next, now_secs),
        Stage::Moving { next, peers, turn } => pass.scene.move_on(relays, next, peers, turn),
        Stage::Choosing { next, peers, turn } => pass.scene.seek_relay(
            relays,
            next,
            peers,
            turn,
            now_secs,
        ),
        Stage::Joining { next, peers, turn, target } => pass.scene.go_on_joining(
            relays,
            next,
            peers,
            turn,
            target,
            reply,
            now_secs,
        ),
        Stage::Done => (Stage::Done, None),
    };
    pass.stage = to;
    action
}

/// Fills the pool anew from the last full state, where there was one.
pub fn refresh_pool(
    pool: &mut Vec<String>,
    known: &Table<PeerInfo>,
    state: &WgState,
    cidr_v4: &str,
    cidr_v6: &str,
    now_secs: u64,
)
    ensures
        known.deep_view().keys.len() == 0 ==> final(pool).deep_view() == old(pool).deep_view(),
        known.deep_view().keys.len() > 0 ==> ordered(final(pool).deep_view()) && forall|pk: Text|
            final(pool).deep_view().contains(pk) <==> #[trigger] relay_candidate(
                SnapshotModel {
                    peers: known.deep_view(),
                    routes: RoutesModel::none(),
                    amnezia: None,
                },
                state.deep_view(),
                cidr_v4@,
                cidr_v6@,
                now_secs,
                pk,
            ),
{
    match get_last_snapshot(known) {
        Some(snapshot) => {
            *pool = discover_relay(&snapshot, state, cidr_v4, cidr_v6, now_secs);
        },
        None => {},
    }
}

// ---------- what holds of a pass ----------

impl SceneModel {
    /// What a stage says of the peer that moves and of the relay: the peer is
    /// neither a relay nor the own key, the relay is one of the pool, and the
    /// addresses are those of the peer.
    pub open spec fn sound(self, stage: StageModel) -> bool {
        match stage {
            StageModel::Adding { next: _, relay, peer, ips } => self.may_move(relay, peer, ips),
            StageModel::Removing { next: _, relay, peer, ips } => self.may_move(relay, peer, ips),
            StageModel::Joining { next, peers: _, turn: _, target } => self.pool.contains(target)
                && target != self.pool[next as int],
            _ => true,
        }
    }

    /// The peer may be handed to the relay with those addresses.
    pub open spec fn may_move(self, relay: Text, peer: Text, ips: Seq<Text>) -> bool {
        &&& self.pool.contains(relay)
        &&& !self.pool.contains(peer)
        &&& peer != self.local_pubkey
        &&& ips == original_ips(self.known, peer)
    }

    /// Which of its halves the pass is in: first the peers, then the relays.
    pub open spec fn half(self, stage: StageModel) -> nat {
        match stage {
            StageModel::Done => 0,
            StageModel::Relays { next: _ } => 1,
            StageModel::Moving { next: _, peers: _, turn: _ } => 1,
            StageModel::Choosing { next: _, peers: _, turn: _ } => 1,
            StageModel::Joining { next: _, peers: _, turn: _, target: _ } => 1,
            _ => 2,
        }
    }

    /// How many peers or relays of this half are still to be looked at.
    pub open spec fn ahead(self, stage: StageModel) -> int {
        let peers = self.state.peers.keys.len();
        match stage {
            StageModel::Peers { next } => peers - next,
            StageModel::Adding { next, relay: _, peer: _, ips: _ } => peers - next,
            StageModel::Removing { next, relay: _, peer: _, ips: _ } => peers - next,
            StageModel::Released { next, relay: _, peer: _ } => peers - next,
            StageModel::Restoring { next, relay: _, peer: _ } => peers - next,
            StageModel::Relays { next } => self.pool.len() - next,
            StageModel::Moving { next, peers: _, turn: _ } => self.pool.len() - next,
            StageModel::Choosing { next, peers: _, turn: _ } => self.pool.len() - next,
            StageModel::Joining { next, peers: _, turn: _, target: _ } => self.pool.len() - next,
            StageModel::Done => 0,
        }
    }

    /// How many peers of a lost relay are still to move; one more than all of
    /// them while they are not counted yet.
    pub open spec fn movers(self, relays: RelaysModel, stage: StageModel) -> int {
        match stage {
            StageModel::Relays { next } => 1 + self.handed_to(
                relays,
                self.pool[next as int],
            ).len() as int,
            StageModel::Moving { next: _, peers, turn } => peers.len() - turn,
            StageModel::Choosing { next: _, peers, turn } => peers.len() - turn,
            StageModel::Joining { next: _, peers, turn, target: _ } => peers.len() - turn,
            _ => 0,
        }
    }

    /// How many commands are still to come for that peer.
    pub open spec fn commands(self, stage: StageModel) -> nat {
        match stage {
            StageModel::Peers { next: _ } => 2,
            StageModel::Adding { next: _, relay: _, peer: _, ips: _ } => 1,
            StageModel::Released { next: _, relay: _, peer: _ } => 1,
            StageModel::Moving { next: _, peers: _, turn: _ } => 2,
            StageModel::Choosing { next: _, peers: _, turn: _ } => 1,
            _ => 0,
        }
    }
}

/// Every step of a pass brings it nearer to its end, so that every pass ends,
/// whatever the replies are.
pub proof fn law_pass_ends(
    scene: SceneModel,
    relays: RelaysModel,
    stage: StageModel,
    reply: bool,
    now_secs: u64,
)
    requires
        scene.holds(stage),
        !(stage is Done),
    ensures
        ({
            let outcome = scene.step(relays, stage, reply, now_secs);
            &&& scene.holds(outcome.stage)
            &&& decreases_to!(
                scene.half(stage),
                scene.ahead(stage),
                scene.movers(relays, stage),
                scene.commands(stage) =>
                scene.half(outcome.stage),
                scene.ahead(outcome.stage),
                scene.movers(outcome.relays, outcome.stage),
                scene.commands(outcome.stage)
            )
        }),
{
}

/// No step of a pass removes the own key or a relay, and addresses go only to
/// relays of the pool that shook hands lately: all stages of a pass are sound.
pub proof fn law_pass_is_sound(
    scene: SceneModel,
    relays: RelaysModel,
    stage: StageModel,
    reply: bool,
    now_secs: u64,
)
    requires
        scene.holds(stage),
        scene.sound(stage),
    ensures
        ({
            let outcome = scene.step(relays, stage, reply, now_secs);
            &&& scene.sound(outcome.stage)
            &&& outcome.action matches Some(ActionModel::RemovePeer { peer }) ==> peer
                != scene.local_pubkey && !scene.pool.contains(peer)
            &&& outcome.action matches Some(ActionModel::AddIps { relay, ips: _ })
                ==> scene.pool.contains(relay) && scene.alive(relay, now_secs)
        }),
{
    law_least_load(scene.pool, relays.load, scene.state, now_secs, None);
    if let StageModel::Choosing { next, peers: _, turn: _ } = stage {
        law_least_load(
            scene.pool,
            relays.load,
            scene.state,
            now_secs,
            Some(scene.pool[next as int]),
        );
    }
}

/// A relay is asked to take a peer over only where the peer is lost, was found
/// so at least twice in a row, and is with no relay yet; and of the relays that
/// shook hands lately it is one with the least load.
pub proof fn law_only_lost_peers_are_handed_over(
    scene: SceneModel,
    relays: RelaysModel,
    next: nat,
    now_secs: u64,
)
    requires
        relays.countable(),
    ensures
        scene.at_peer(relays, next, now_secs).stage matches StageModel::Adding {
            next: _,
            relay,
            peer,
            ips,
        } ==> {
            &&& !scene.alive(peer, now_secs)
            &&& count_of(relays.fails, peer) + 1 >= RELAY_FAIL_COUNT_MAX
            &&& !relays.bound.has(peer)
            &&& ips.len() > 0
            &&& scene.alive(relay, now_secs)
            &&& forall|other: Text| #[trigger]
                scene.pool.contains(other) && scene.alive(other, now_secs) ==> count_of(
                    relays.load,
                    relay,
                ) <= count_of(relays.load, other)
        },
{
    law_least_load(scene.pool, relays.load, scene.state, now_secs, None);
    if let StageModel::Adding { next: _, relay, peer: _, ips: _ } = scene.at_peer(
        relays,
        next,
        now_secs,
    ).stage {
        assert forall|other: Text| #[trigger]
            scene.pool.contains(other) && scene.alive(other, now_secs) implies count_of(
            relays.load,
            relay,
        ) <= count_of(relays.load, other) by {
            assert(eligible(scene.state, now_secs, None, other));
        }
    }
}

/// A peer comes to be with a relay only after that relay took its addresses:
/// when its removal then went well, or, for a peer that moves, at once.
pub proof fn law_binding_follows_success(
    scene: SceneModel,
    relays: RelaysModel,
    stage: StageModel,
    reply: bool,
    now_secs: u64,
    peer: Text,
)
    requires
        scene.step(relays, stage, reply, now_secs).relays.bound.get(peer) != relays.bound.get(peer),
        scene.step(relays, stage, reply, now_secs).relays.bound.has(peer),
    ensures
        reply,
        match stage {
            StageModel::Removing { next: _, relay, peer: gone, ips: _ } => gone == peer
                && scene.step(relays, stage, reply, now_secs).relays.bound.map[peer] == relay,
            StageModel::Joining { next: _, peers, turn, target } => peers[turn as int] == peer
                && scene.alive(target, now_secs) && scene.step(
                relays,
                stage,
                reply,
                now_secs,
            ).relays.bound.map[peer] == target,
            _ => false,
        },
{
}

/// A handover that fails halfway leaves nothing behind: the relay gives back
/// what it was given, and no peer is counted as handed over.
pub proof fn law_failed_handover_is_undone(
    scene: SceneModel,
    relays: RelaysModel,
    next: nat,
    relay: Text,
    peer: Text,
    ips: Seq<Text>,
    now_secs: u64,
)
    ensures
        ({
            let failed = scene.step(
                relays,
                StageModel::Removing { next, relay, peer, ips },
                false,
                now_secs,
            );
            &&& failed.relays == relays
            &&& failed.action == Some(ActionModel::RemoveIps { relay, ips })
        }),
        ({
            let refused = scene.step(
                relays,
                StageModel::Adding { next, relay, peer, ips },
                false,
                now_secs,
            );
            &&& refused.relays == relays
            &&& refused.action is None
        }),
        ({
            let added = scene.step(
                relays,
                StageModel::Adding { next, relay, peer, ips },
                true,
                now_secs,
            );
            &&& added.relays == relays
            &&& relays.bound.has(peer) || !scene.alive(relay, now_secs) ==> added.action == Some(
                ActionModel::RemoveIps { relay, ips },
            )
        }),
{
}

/// A peer that is gone is with no relay any more, and nothing changes for the others.
pub proof fn law_forgotten(relays: RelaysModel, pubkey: Text, other: Text)
    requires
        other != pubkey,
    ensures
        !relays.without(pubkey).bound.has(pubkey),
        relays.without(pubkey).bound.get(other) == relays.bound.get(other),
        relays.without(pubkey).fails.get(other) == relays.fails.get(other),
        relays.without(pubkey).without(pubkey) == relays.without(pubkey),
{
}

// ---------- what holds of a whole pass ----------

/// What a step is given: the reply to the step before, and the time.
#[verifier::ext_equal]
pub struct StepInput {
    pub reply: bool,
    pub now_secs: u64,
}

/// How far a pass has come: what is remembered, where it stands, and what it
/// has asked for.
#[verifier::ext_equal]
pub struct Progress {
    pub relays: RelaysModel,
    pub stage: StageModel,
    pub actions: Seq<ActionModel>,
}

impl SceneModel {
    /// How far a pass has come with those steps.
    pub open spec fn run(self, start: RelaysModel, inputs: Seq<StepInput>) -> Progress
        decreases inputs.len(),
    {
        if inputs.len() == 0 {
            Progress { relays: start, stage: self.beginning(), actions: Seq::empty() }
        } else {
            let before = self.run(start, inputs.drop_last());
            let outcome = self.step(
                before.relays,
                before.stage,
                inputs.last().reply,
                inputs.last().now_secs,
            );
            Progress {
                relays: outcome.relays,
                stage: outcome.stage,
                actions: match outcome.action {
                    Some(action) => before.actions.push(action),
                    None => before.actions,
                },
            }
        }
    }

    /// The peer was found lost, and the relay there, at one of those steps.
    pub open spec fn seen_so(self, peer: Text, relay: Text, inputs: Seq<StepInput>) -> bool {
        &&& exists|i: int|
            0 <= i < inputs.len() && !self.alive(peer, (#[trigger] inputs[i]).now_secs)
        &&& exists|i: int|
            0 <= i < inputs.len() && self.alive(relay, (#[trigger] inputs[i]).now_secs)
    }

    /// The peer may be with the relay after those steps: it is a peer of the
    /// interface that was found lost, neither a relay nor the own key, its
    /// addresses are known, and the relay is one of the pool that was there.
    pub open spec fn rightly_bound(self, peer: Text, relay: Text, inputs: Seq<StepInput>) -> bool {
        &&& self.state.peers.keys.contains(peer)
        &&& self.may_move(relay, peer, original_ips(self.known, peer))
        &&& original_ips(self.known, peer).len() > 0
        &&& self.seen_so(peer, relay, inputs)
    }

    /// What a stage says of the peer and the relay after those steps: a
    /// handover that is under way is right, and a peer that moves is with a
    /// relay.
    pub open spec fn on_course(
        self,
        relays: RelaysModel,
        stage: StageModel,
        inputs: Seq<StepInput>,
    ) -> bool {
        match stage {
            StageModel::Adding { next: _, relay, peer, ips: _ } => self.rightly_bound(
                peer,
                relay,
                inputs,
            ),
            StageModel::Removing { next: _, relay, peer, ips: _ } => self.rightly_bound(
                peer,
                relay,
                inputs,
            ),
            StageModel::Moving { next: _, peers, turn: _ } => all_bound(relays, peers),
            StageModel::Choosing { next: _, peers, turn: _ } => all_bound(relays, peers),
            StageModel::Joining { next: _, peers, turn: _, target: _ } => all_bound(relays, peers),
            _ => true,
        }
    }
}

/// All those peers are with a relay.
pub open spec fn all_bound(relays: RelaysModel, peers: Seq<Text>) -> bool {
    forall|i: int| 0 <= i < peers.len() ==> relays.bound.has(#[trigger] peers[i])
}

/// After any number of steps of a pass, whatever the replies were: every peer
/// that has come to be with a relay, or with another one, is a peer of the
/// interface that was found lost, neither a relay nor the own key, with known
/// addresses; and its relay is one of the pool that was there.
pub proof fn law_pass_binds_rightly(
    scene: SceneModel,
    start: RelaysModel,
    inputs: Seq<StepInput>,
    peer: Text,
)
    requires
        start.bound.valid(),
    ensures
        ({
            let bound = scene.run(start, inputs).relays.bound;
            bound.has(peer) && bound.get(peer) != start.bound.get(peer) ==> scene.rightly_bound(
                peer,
                bound.map[peer],
                inputs,
            )
        }),
{
    lemma_run(scene, start, inputs);
}

/// Without relays a pass does nothing at all: it asks for nothing, and nothing
/// that is remembered changes.
pub proof fn law_no_relays_no_change(
    scene: SceneModel,
    start: RelaysModel,
    inputs: Seq<StepInput>,
)
    requires
        scene.pool.len() == 0,
    ensures
        scene.run(start, inputs) == (Progress {
            relays: start,
            stage: StageModel::Done,
            actions: Seq::empty(),
        }),
    decreases inputs.len(),
{
    if inputs.len() > 0 {
        law_no_relays_no_change(scene, start, inputs.drop_last());
    }
}

/// What holds after any number of steps.
proof fn lemma_run(scene: SceneModel, start: RelaysModel, inputs: Seq<StepInput>)
    requires
        start.bound.valid(),
    ensures
        ({
            let run = scene.run(start, inputs);
            &&& scene.holds(run.stage)
            &&& run.relays.bound.valid()
            &&& scene.on_course(run.relays, run.stage, inputs)
            &&& forall|p: Text| #[trigger]
                run.relays.bound.has(p) && run.relays.bound.get(p) != start.bound.get(p)
                    ==> scene.rightly_bound(p, run.relays.bound.map[p], inputs)
        }),
    decreases inputs.len(),
{
    if inputs.len() > 0 {
        let front = inputs.drop_last();
        let last = inputs.last();
        lemma_run(scene, start, front);
        let before = scene.run(start, front);
        let relays = before.relays;
        let outcome = scene.step(relays, before.stage, last.reply, last.now_secs);
        assert forall|p: Text, r: Text| #[trigger] scene.rightly_bound(p, r, front) implies
            scene.rightly_bound(p, r, inputs) by {
            lemma_seen_longer(scene, p, r, inputs);
        }
        assert(inputs[inputs.len() - 1] == last);
        match before.stage {
            StageModel::Peers { next } => {
                if let StageModel::Adding { next: _, relay, peer, ips: _ } = outcome.stage {
                    law_least_load(
                        scene.pool,
                        relays.load,
                        scene.state,
                        last.now_secs,
                        None,
                    );
                    assert(scene.state.peers.keys[next as int] == peer);
                    assert(!scene.alive(peer, inputs[inputs.len() - 1].now_secs));
                    assert(scene.alive(relay, inputs[inputs.len() - 1].now_secs));
                    assert(scene.rightly_bound(peer, relay, inputs));
                }
                if next < scene.state.peers.keys.len() {
                    relays.bound.lemma_remove(scene.state.peers.keys[next as int]);
                }
            },
            StageModel::Removing { next: _, relay, peer, ips: _ } => {
                relays.bound.lemma_insert(peer, relay);
                assert(scene.rightly_bound(peer, relay, front));
            },
            StageModel::Relays { next } => {
                if next < scene.pool.len() {
                    let peers = scene.handed_to(relays, scene.pool[next as int]);
                    assert forall|i: int| 0 <= i < peers.len() implies relays.bound.has(
                        #[trigger] peers[i],
                    ) by {
                        assert(peers.contains(peers[i]));
                        lemma_filter_contains(
                            relays.bound.keys,
                            is_with(relays, scene.pool[next as int]),
                            peers[i],
                        );
                    }
                }
            },
            StageModel::Joining { next: _, peers, turn, target: _ } => {
                assert(relays.bound.has(peers[turn as int]));
            },
            _ => {},
        }
        assert forall|p: Text| #[trigger]
            outcome.relays.bound.has(p) && outcome.relays.bound.get(p) != start.bound.get(
                p,
            ) implies scene.rightly_bound(p, outcome.relays.bound.map[p], inputs) by {
            if relays.bound.has(p) && relays.bound.map[p] == outcome.relays.bound.map[p] {
                assert(scene.rightly_bound(p, relays.bound.map[p], front));
            }
        }
    }
}

/// What was seen at some steps was seen at those and one more.
proof fn lemma_seen_longer(scene: SceneModel, peer: Text, relay: Text, inputs: Seq<StepInput>)
    requires
        inputs.len() > 0,
        scene.seen_so(peer, relay, inputs.drop_last()),
    ensures
        scene.seen_so(peer, relay, inputs),
{
    let front = inputs.drop_last();
    let i = choose|i: int|
        0 <= i < front.len() && !scene.alive(peer, (#[trigger] front[i]).now_secs);
    let j = choose|j: int|
        0 <= j < front.len() && scene.alive(relay, (#[trigger] front[j]).now_secs);
    assert(inputs[i] == front[i]);
    assert(inputs[j] == front[j]);
}

// ---------- what holds of the counts ----------

/// A count goes up by one, down by one but not below zero, or back to zero, and
/// no other count moves with it. A name without a count counts as zero, and
/// neither goes down nor gets one by being set back.
pub proof fn law_counts(counts: Entries<u32>, k: Text, other: Text)
    requires
        other != k,
        countable(counts),
    ensures
        counts.has(k) ==> count_of(counts, k) == counts.map[k],
        !counts.has(k) ==> count_of(counts, k) == 0,
        count_of(counted(counts, k), k) == count_of(counts, k) + 1,
        count_of(counted(counts, k), other) == count_of(counts, other),
        count_of(discounted(counts, k), k) == if count_of(counts, k) == 0 {
            0
        } else {
            count_of(counts, k) - 1
        },
        count_of(discounted(counts, k), other) == count_of(counts, other),
        count_of(zeroed(counts, k), k) == 0,
        count_of(zeroed(counts, k), other) == count_of(counts, other),
        !counts.has(k) ==> discounted(counts, k) == counts && zeroed(counts, k) == counts,
        forall|n: Text| #[trigger] counts.has(n) ==> counts.map[n] != u32::MAX,
{
}

/// A peer that is handed to a relay is with it, and the relay has one peer
/// more; for the other peers and relays nothing changes.
pub proof fn law_handover_is_counted(
    relays: RelaysModel,
    peer: Text,
    relay: Text,
    other: Text,
    another: Text,
)
    requires
        relays.countable(),
        other != peer,
        another != relay,
    ensures
        relays.handed(peer, relay).bound.get(peer) == Some(relay),
        relays.handed(peer, relay).bound.get(other) == relays.bound.get(other),
        count_of(relays.handed(peer, relay).load, relay) == count_of(relays.load, relay) + 1,
        count_of(relays.handed(peer, relay).load, another) == count_of(relays.load, another),
        relays.handed(peer, relay).fails == relays.fails,
{
}

/// When a peer is gone that was with a relay, that relay has one peer less, and
/// the peer's failures are forgotten; one that was with none leaves everything
/// as it was. A handover that is forgotten leaves the load as it was before.
pub proof fn law_gone_peer_frees_its_relay(
    relays: RelaysModel,
    pubkey: Text,
    relay: Text,
    another: Text,
)
    requires
        relays.countable(),
        another != relay,
    ensures
        relays.bound.get(pubkey) == Some(relay) ==> {
            let after = relays.without(pubkey);
            &&& after.bound.get(pubkey) is None
            &&& after.fails.get(pubkey) is None
            &&& count_of(after.load, relay) == if count_of(relays.load, relay) == 0 {
                0
            } else {
                count_of(relays.load, relay) - 1
            }
            &&& count_of(after.load, another) == count_of(relays.load, another)
        },
        relays.bound.get(pubkey) is None ==> relays.without(pubkey) == relays,
        count_of(relays.handed(pubkey, relay).without(pubkey).load, relay) == count_of(
            relays.load,
            relay,
        ),
{
}

// ---------- what holds of the choice ----------

/// A relay may take a peer over exactly where it shook hands at most 180
/// seconds ago and is not the one to be avoided.
pub proof fn law_living_relay_is_eligible(
    state: WgStateModel,
    now_secs: u64,
    avoid: Option<Text>,
    relay: Text,
)
    ensures
        eligible(state, now_secs, avoid, relay) <==> {
            &&& avoid != Some(relay)
            &&& state.peers.has(relay)
            &&& state.peers.map[relay].latest_handshake matches Some(at)
            &&& at + 180 >= now_secs
        },
{
}

/// Of the eligible relays the one with the least load is chosen, and of several
/// with the same load the first of the pool.
pub proof fn law_first_of_the_least_loaded(
    pool: Seq<Text>,
    load: Entries<u32>,
    state: WgStateModel,
    now_secs: u64,
    avoid: Option<Text>,
    i: int,
)
    requires
        0 <= i < pool.len(),
        eligible(state, now_secs, avoid, pool[i]),
        forall|j: int|
            #![trigger pool[j]]
            0 <= j < pool.len() && eligible(state, now_secs, avoid, pool[j]) ==> count_of(
                load,
                pool[i],
            ) <= count_of(load, pool[j]),
        forall|j: int|
            #![trigger pool[j]]
            0 <= j < i && eligible(state, now_secs, avoid, pool[j]) ==> count_of(load, pool[i])
                < count_of(load, pool[j]),
    ensures
        best_relay(pool, load, state, now_secs, avoid) == Some(pool[i]),
    decreases pool.len(),
{
    let front = pool.drop_last();
    assert(forall|j: int| 0 <= j < front.len() ==> #[trigger] front[j] == pool[j]);
    assert(pool[pool.len() - 1] == pool.last());
    if i < front.len() {
        assert(front[i] == pool[i]);
        law_first_of_the_least_loaded(front, load, state, now_secs, avoid, i);
    } else {
        law_least_load(front, load, state, now_secs, avoid);
        if let Some(best) = best_relay(front, load, state, now_secs, avoid) {
            let j = choose|j: int| 0 <= j < front.len() && front[j] == best;
            assert(pool[j] == best);
        }
    }
}

// ---------- what becomes of each peer ----------

impl SceneModel {
    /// The peer shook hands at most 180 seconds ago.
    pub open spec fn in_touch(self, pubkey: Text, now_secs: u64) -> bool {
        &&& self.state.peers.has(pubkey)
        &&& self.state.peers.map[pubkey].latest_handshake matches Some(at)
        &&& at + 180 >= now_secs
    }

    /// It is the turn of that peer, which is neither a relay nor the own key.
    pub open spec fn turn_of(self, next: nat, peer: Text) -> bool {
        &&& next < self.state.peers.keys.len()
        &&& self.state.peers.keys[next as int] == peer
        &&& !self.pool.contains(peer)
        &&& peer != self.local_pubkey
    }
}

/// A peer that is found lost for the second time in a row, with known
/// addresses and no relay yet, is handed over as soon as one relay of the pool
/// is there: such a relay is asked to take all of these addresses.
pub proof fn law_lost_peer_is_handed_over(
    scene: SceneModel,
    relays: RelaysModel,
    next: nat,
    peer: Text,
    ips: Seq<Text>,
    relay: Text,
    reply: bool,
    now_secs: u64,
)
    requires
        relays.countable(),
        scene.turn_of(next, peer),
        !scene.in_touch(peer, now_secs),
        count_of(relays.fails, peer) >= 1,
        !relays.bound.has(peer),
        scene.known.has(peer),
        scene.known.map[peer].allowed_ips == Some(ips),
        ips.len() > 0,
        scene.pool.contains(relay),
        scene.in_touch(relay, now_secs),
    ensures
        ({
            let outcome = scene.step(relays, StageModel::Peers { next }, reply, now_secs);
            &&& outcome.action matches Some(ActionModel::AddIps { relay: chosen, ips: given })
            &&& given == ips
            &&& scene.pool.contains(chosen)
            &&& scene.in_touch(chosen, now_secs)
            &&& outcome.stage == (StageModel::Adding { next, relay: chosen, peer, ips })
            &&& outcome.relays.bound == relays.bound
            &&& outcome.relays.load == relays.load
            &&& count_of(outcome.relays.fails, peer) == count_of(relays.fails, peer) + 1
        }),
{
    law_least_load(scene.pool, relays.load, scene.state, now_secs, None);
    assert(eligible(scene.state, now_secs, None, relay));
}

/// A peer that is found lost for the first time is only counted, and so is one
/// that is with a relay already, whose addresses are not known, or for which
/// there is no relay.
pub proof fn law_lost_peer_is_counted(
    scene: SceneModel,
    relays: RelaysModel,
    next: nat,
    peer: Text,
    reply: bool,
    now_secs: u64,
)
    requires
        relays.countable(),
        scene.turn_of(next, peer),
        !scene.in_touch(peer, now_secs),
    ensures
        ({
            let outcome = scene.step(relays, StageModel::Peers { next }, reply, now_secs);
            &&& count_of(outcome.relays.fails, peer) == count_of(relays.fails, peer) + 1
            &&& outcome.relays.bound == relays.bound
            &&& outcome.relays.load == relays.load
            &&& count_of(relays.fails, peer) == 0 || relays.bound.has(peer) || original_ips(
                scene.known,
                peer,
            ).len() == 0 || (forall|relay: Text| #[trigger]
                scene.pool.contains(relay) ==> !scene.in_touch(relay, now_secs)) ==> {
                &&& outcome.action is None
                &&& outcome.stage == StageModel::Peers { next: next + 1 }
            }
        }),
{
    law_least_load(scene.pool, relays.load, scene.state, now_secs, None);
}

/// A peer that is there again and was with a relay leaves it: that relay is
/// asked to give back all addresses of the peer. One that was with none starts
/// counting anew, and nothing is asked.
pub proof fn law_returned_peer_leaves_its_relay(
    scene: SceneModel,
    relays: RelaysModel,
    next: nat,
    peer: Text,
    reply: bool,
    now_secs: u64,
)
    requires
        scene.turn_of(next, peer),
        scene.in_touch(peer, now_secs),
    ensures
        ({
            let outcome = scene.step(relays, StageModel::Peers { next }, reply, now_secs);
            &&& relays.bound.get(peer) matches Some(relay) ==> {
                &&& outcome.action == Some(
                    ActionModel::RemoveIps { relay, ips: original_ips(scene.known, peer) },
                )
                &&& outcome.relays.bound == relays.bound.remove(peer)
                &&& outcome.stage == (StageModel::Released { next, relay, peer })
            }
            &&& relays.bound.get(peer) is None ==> {
                &&& outcome.action is None
                &&& outcome.relays.bound == relays.bound
                &&& count_of(outcome.relays.fails, peer) == 0
                &&& outcome.stage == StageModel::Peers { next: next + 1 }
            }
            &&& outcome.relays.load == relays.load
        }),
{
}

/// The own key and the relays are passed over, and behind the last peer come
/// the relays.
pub proof fn law_relays_are_passed_over(
    scene: SceneModel,
    relays: RelaysModel,
    next: nat,
    reply: bool,
    now_secs: u64,
)
    ensures
        ({
            let outcome = scene.step(relays, StageModel::Peers { next }, reply, now_secs);
            &&& next >= scene.state.peers.keys.len() ==> outcome == (Outcome {
                relays,
                stage: StageModel::Relays { next: 0 },
                action: None,
            })
            &&& next < scene.state.peers.keys.len() && (scene.pool.contains(
                scene.state.peers.keys[next as int],
            ) || scene.state.peers.keys[next as int] == scene.local_pubkey) ==> outcome == (
            Outcome { relays, stage: StageModel::Peers { next: next + 1 }, action: None })
        }),
{
}

/// Once the relay has the addresses and is still there, the peer is removed;
/// and once it is, it is with that relay, which has one peer more, and its
/// failures are forgotten. For the other peers nothing changes.
pub proof fn law_handover_is_completed(
    scene: SceneModel,
    relays: RelaysModel,
    next: nat,
    relay: Text,
    peer: Text,
    ips: Seq<Text>,
    now_secs: u64,
    other: Text,
)
    requires
        relays.countable(),
        other != peer,
    ensures
        !relays.bound.has(peer) && scene.in_touch(relay, now_secs) ==> {
            let outcome = scene.step(
                relays,
                StageModel::Adding { next, relay, peer, ips },
                true,
                now_secs,
            );
            &&& outcome.relays == relays
            &&& outcome.action == Some(ActionModel::RemovePeer { peer })
            &&& outcome.stage == (StageModel::Removing { next, relay, peer, ips })
        },
        ({
            let outcome = scene.step(
                relays,
                StageModel::Removing { next, relay, peer, ips },
                true,
                now_secs,
            );
            &&& outcome.relays.bound.get(peer) == Some(relay)
            &&& outcome.relays.bound.get(other) == relays.bound.get(other)
            &&& count_of(outcome.relays.load, relay) == count_of(relays.load, relay) + 1
            &&& count_of(outcome.relays.fails, peer) == 0
            &&& count_of(outcome.relays.fails, other) == count_of(relays.fails, other)
            &&& outcome.action is None
            &&& outcome.stage == StageModel::Peers { next: next + 1 }
        }),
{
}

/// A peer that still counts as with the relay that gave its addresses back is
/// set up again as the full state described it; when that went well the relay
/// has one peer less. One that does not count so any more ends the pass.
pub proof fn law_released_peer_is_set_up(
    scene: SceneModel,
    relays: RelaysModel,
    next: nat,
    relay: Text,
    peer: Text,
    reply: bool,
    now_secs: u64,
)
    requires
        relays.countable(),
    ensures
        ({
            let outcome = scene.step(
                relays,
                StageModel::Released { next, relay, peer },
                reply,
                now_secs,
            );
            &&& relays.bound.get(peer) != Some(relay) ==> outcome.stage is Done
                && outcome.action is None && outcome.relays == relays
            &&& relays.bound.get(peer) == Some(relay) && scene.known.has(peer) ==> {
                let info = scene.known.map[peer];
                &&& outcome.action == Some(
                    ActionModel::Restore {
                        plan: peer_plan(
                            scene.interface,
                            peer,
                            info.endpoint,
                            info.allowed_ips,
                            info.persistent_keepalive,
                            info.preshared_key,
                            scene.state,
                        ),
                    },
                )
                &&& outcome.stage == (StageModel::Restoring { next, relay, peer })
            }
            &&& outcome.relays.bound == relays.bound
            &&& outcome.relays.load == relays.load
        }),
        ({
            let outcome = scene.step(
                relays,
                StageModel::Restoring { next, relay, peer },
                reply,
                now_secs,
            );
            &&& outcome.relays.bound == relays.bound
            &&& count_of(outcome.relays.load, relay) == if reply && count_of(relays.load, relay)
                > 0 {
                count_of(relays.load, relay) - 1
            } else {
                count_of(relays.load, relay) as int
            }
            &&& count_of(outcome.relays.fails, peer) == 0
            &&& outcome.stage == StageModel::Peers { next: next + 1 }
            &&& outcome.action is None
        }),
{
}

// ---------- what becomes of each relay ----------

/// The peers of a relay are exactly those that are with it.
pub proof fn law_peers_of_a_relay(
    scene: SceneModel,
    relays: RelaysModel,
    relay: Text,
    pubkey: Text,
)
    requires
        relays.bound.valid(),
    ensures
        scene.handed_to(relays, relay).contains(pubkey) <==> relays.bound.get(pubkey) == Some(
            relay,
        ),
{
    lemma_filter_contains(relays.bound.keys, is_with(relays, relay), pubkey);
    assert(relays.bound.has(pubkey) <==> relays.bound.keys.contains(pubkey));
}

/// A relay that is there is left as it is. The load of a lost one is forgotten
/// where no peer is with it; else its peers, all of them, have to move.
pub proof fn law_lost_relay_loses_its_peers(
    scene: SceneModel,
    relays: RelaysModel,
    next: nat,
    reply: bool,
    now_secs: u64,
    peer: Text,
)
    requires
        relays.bound.valid(),
        next < scene.pool.len(),
    ensures
        ({
            let relay = scene.pool[next as int];
            let outcome = scene.step(relays, StageModel::Relays { next }, reply, now_secs);
            &&& outcome.action is None
            &&& outcome.relays.bound == relays.bound
            &&& scene.in_touch(relay, now_secs) ==> outcome.relays == relays && outcome.stage
                == StageModel::Relays { next: next + 1 }
            &&& !scene.in_touch(relay, now_secs) && relays.bound.get(peer) == Some(relay) ==> {
                &&& outcome.relays == relays
                &&& outcome.stage matches StageModel::Moving { next: at, peers, turn }
                &&& at == next
                &&& turn == 0
                &&& peers.contains(peer)
            }
            &&& !scene.in_touch(relay, now_secs) && (forall|p: Text|
                #![trigger relays.bound.get(p)]
                relays.bound.get(p) != Some(relay)) ==> {
                &&& outcome.relays.load == relays.load.remove(relay)
                &&& outcome.stage == StageModel::Relays { next: next + 1 }
            }
            &&& outcome.stage matches StageModel::Moving { next: _, peers, turn: _ } ==> (
            peers.contains(peer) ==> relays.bound.get(peer) == Some(relay))
        }),
        scene.step(
            relays,
            StageModel::Relays { next: scene.pool.len() },
            reply,
            now_secs,
        ).stage is Done,
{
    let relay = scene.pool[next as int];
    let peers = scene.handed_to(relays, relay);
    law_peers_of_a_relay(scene, relays, relay, peer);
    if peers.len() > 0 {
        assert(peers.contains(peers[0]));
        law_peers_of_a_relay(scene, relays, relay, peers[0]);
    }
}

/// A peer that has to move is first taken off the lost relay, with all its
/// addresses, and then another relay that is there is asked to take these; the
/// lost one is not. Behind the last peer the load of the lost relay is
/// forgotten.
pub proof fn law_peer_moves_to_another_relay(
    scene: SceneModel,
    relays: RelaysModel,
    next: nat,
    peers: Seq<Text>,
    turn: nat,
    reply: bool,
    now_secs: u64,
    other: Text,
)
    requires
        next < scene.pool.len(),
    ensures
        turn < peers.len() ==> {
            let outcome = scene.step(
                relays,
                StageModel::Moving { next, peers, turn },
                reply,
                now_secs,
            );
            &&& outcome.relays == relays
            &&& outcome.action == Some(
                ActionModel::RemoveIps {
                    relay: scene.pool[next as int],
                    ips: original_ips(scene.known, peers[turn as int]),
                },
            )
            &&& outcome.stage == (StageModel::Choosing { next, peers, turn })
        },
        turn >= peers.len() ==> {
            let outcome = scene.step(
                relays,
                StageModel::Moving { next, peers, turn },
                reply,
                now_secs,
            );
            &&& outcome.relays.load == relays.load.remove(scene.pool[next as int])
            &&& outcome.relays.bound == relays.bound
            &&& outcome.action is None
            &&& outcome.stage == StageModel::Relays { next: next + 1 }
        },
        turn < peers.len() && scene.pool.contains(other) && scene.in_touch(other, now_secs) && other
            != scene.pool[next as int] ==> {
            let outcome = scene.step(
                relays,
                StageModel::Choosing { next, peers, turn },
                reply,
                now_secs,
            );
            &&& outcome.relays == relays
            &&& outcome.action matches Some(ActionModel::AddIps { relay: target, ips })
            &&& ips == original_ips(scene.known, peers[turn as int])
            &&& scene.pool.contains(target)
            &&& scene.in_touch(target, now_secs)
            &&& target != scene.pool[next as int]
            &&& outcome.stage == (StageModel::Joining { next, peers, turn, target })
        },
{
    law_least_load(
        scene.pool,
        relays.load,
        scene.state,
        now_secs,
        Some(scene.pool[next as int]),
    );
    assert(scene.in_touch(other, now_secs) && other != scene.pool[next as int] ==> eligible(
        scene.state,
        now_secs,
        Some(scene.pool[next as int]),
        other,
    ));
}

/// A relay that took the addresses of a peer has the peer, where that is with
/// none and the relay is there; else it is asked to give them back. Where it
/// did not take them nothing changes. Either way the next peer follows.
pub proof fn law_moved_peer_is_with_the_other_relay(
    scene: SceneModel,
    relays: RelaysModel,
    next: nat,
    peers: Seq<Text>,
    turn: nat,
    target: Text,
    reply: bool,
    now_secs: u64,
)
    requires
        relays.countable(),
        turn < peers.len(),
    ensures
        ({
            let peer = peers[turn as int];
            let outcome = scene.step(
                relays,
                StageModel::Joining { next, peers, turn, target },
                reply,
                now_secs,
            );
            &&& outcome.stage == (StageModel::Moving { next, peers, turn: turn + 1 })
            &&& !reply ==> outcome.relays == relays && outcome.action is None
            &&& reply && !relays.bound.has(peer) && scene.in_touch(target, now_secs) ==> {
                &&& outcome.relays.bound.get(peer) == Some(target)
                &&& count_of(outcome.relays.load, target) == count_of(relays.load, target) + 1
                &&& outcome.action is None
            }
            &&& reply && (relays.bound.has(peer) || !scene.in_touch(target, now_secs)) ==> {
                &&& outcome.relays == relays
                &&& outcome.action == Some(
                    ActionModel::RemoveIps {
                        relay: target,
                        ips: original_ips(scene.known, peer),
                    },
                )
            }
        }),
{
}

} // verus!
