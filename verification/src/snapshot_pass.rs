//! How the peers of a full state come onto the interface.
//!
//! The pass alternates decisions and outside work. Each step says what to do or
//! to read next, and takes as `reply` what came of the step before.
use vstd::prelude::*;

use crate::lan::{preserved_endpoint, Lan, LanModel};
use crate::list::copied;
use crate::peer::{
    batch_restore_peers, clear_list, conf_lines, copied_list, law_empty_keys_are_cleared,
    peer_plan, PeerInfo, PeerInfoModel, PeerPlan, PeerPlanModel,
};
use crate::relay_pass::{law_forgotten, Relays, RelaysModel};
use crate::retry::{enqueued, RetryModel, RetryQueue, MAX_RETRY_QUEUE_SIZE};
use crate::snapshot::{
    config_entries, entries_of, entry_plan, is_direct, is_stale, lan_candidates,
    law_every_peer_goes_on_once, law_local_endpoints_make_a_candidate, law_only_known_peers_stay,
    law_peer_goes_on_as_described, local_peers, plan_entry, plan_psk_clear, psk_clear_due,
    psk_clear_plan, psk_clear_wanted, stale_of, stale_peers, FullSnapshot, SnapshotModel,
};
use crate::state::{copied_option, WgState, WgStateModel};
use crate::table::Entries;
use crate::text::{joined, lemma_filter_contains, Text};

verus! {

/// What came of a step: whether a command went well, the state of the interface
/// where it could be read, and the peers with a pre-shared key where these
/// could be read. A step looks only at what the one before asked for.
pub struct Reply {
    pub ok: bool,
    pub state: Option<WgState>,
    pub with_psk: Option<Vec<String>>,
}

/// What a `Reply` says.
#[verifier::ext_equal]
pub struct ReplyModel {
    pub ok: bool,
    pub state: Option<WgStateModel>,
    pub with_psk: Option<Seq<Text>>,
}

impl DeepView for Reply {
    type V = ReplyModel;

    open spec fn deep_view(&self) -> ReplyModel {
        ReplyModel {
            ok: self.ok,
            state: self.state.deep_view(),
            with_psk: self.with_psk.deep_view(),
        }
    }
}

impl ReplyModel {
    /// The state that was read, or an empty one.
    pub open spec fn read_state(self) -> WgStateModel {
        match self.state {
            Some(state) => state,
            None => WgState::nothing(),
        }
    }
}

/// What a step asks for: to read the state, from the interface itself where it
/// has to be fresh; to add a configuration to the interface; to read which
/// peers have a pre-shared key; to put a peer on the interface; to switch a
/// peer to one of those local endpoints; or to remove a peer.
pub enum SnapshotAction {
    ReadState { fresh: bool },
    Restore { conf: String },
    ReadPsk,
    Apply { plan: PeerPlan },
    Switch { pubkey: String, endpoints: Vec<String> },
    RemovePeer { pubkey: String },
}

/// What a `SnapshotAction` says.
#[verifier::ext_equal]
#[allow(inconsistent_fields)]
pub enum SnapshotActionModel {
    ReadState { fresh: bool },
    Restore { conf: Text },
    ReadPsk,
    Apply { plan: PeerPlanModel },
    Switch { pubkey: Text, endpoints: Seq<Text> },
    RemovePeer { pubkey: Text },
}

impl DeepView for SnapshotAction {
    type V = SnapshotActionModel;

    open spec fn deep_view(&self) -> SnapshotActionModel {
        match *self {
            SnapshotAction::ReadState { fresh } => SnapshotActionModel::ReadState { fresh },
            SnapshotAction::Restore { conf } => SnapshotActionModel::Restore { conf: conf@ },
            SnapshotAction::ReadPsk => SnapshotActionModel::ReadPsk,
            SnapshotAction::Apply { plan } => SnapshotActionModel::Apply { plan: plan.deep_view() },
            SnapshotAction::Switch { pubkey, endpoints } => SnapshotActionModel::Switch {
                pubkey: pubkey@,
                endpoints: endpoints.deep_view(),
            },
            SnapshotAction::RemovePeer { pubkey } => SnapshotActionModel::RemovePeer {
                pubkey: pubkey@,
            },
        }
    }
}

/// Where a pass stands. `turn` counts the peers of the list beside it.
///
/// - `Begin`: the state is to be read.
/// - `Configure`: the state was to be read, and the configuration is to be made.
/// - `Restored`: the configuration was to be added for those peers.
/// - `Query`: it was to be read which peers have a pre-shared key.
/// - `Clear`: the next peer's pre-shared key may have to be cleared.
/// - `ClearNow`: the state was to be read, and that peer's key is to be cleared.
/// - `Retreat`: the state was to be read, and the peers go on one by one.
/// - `Single`: the next peer is to go on by itself.
/// - `Applied`: that peer was to go on by itself.
/// - `Switch`: the next peer may be switched to a local endpoint.
/// - `Sweep`: the state was to be read, and the peers that are gone are sought.
/// - `Remove`: the next of these is to be removed.
/// - `Done`: nothing is left to do.
pub enum SnapshotStage {
    Begin,
    Configure,
    Restored { entries: Vec<(String, PeerInfo)>, clear: Vec<String> },
    Query { clear: Vec<String> },
    Clear { clear: Vec<String>, with_psk: Option<Vec<String>>, turn: usize },
    ClearNow { clear: Vec<String>, with_psk: Option<Vec<String>>, turn: usize },
    Retreat { entries: Vec<(String, PeerInfo)> },
    Single { entries: Vec<(String, PeerInfo)>, state: WgState, turn: usize },
    Applied { entries: Vec<(String, PeerInfo)>, state: WgState, turn: usize },
    Switch { candidates: Vec<(String, Vec<String>)>, turn: usize },
    Sweep,
    Remove { stale: Vec<String>, turn: usize },
    Done,
}

/// What a `SnapshotStage` says.
#[verifier::ext_equal]
#[allow(inconsistent_fields)]
pub enum SnapshotStageModel {
    Begin,
    Configure,
    Restored { entries: Seq<(Text, PeerInfoModel)>, clear: Seq<Text> },
    Query { clear: Seq<Text> },
    Clear { clear: Seq<Text>, with_psk: Option<Seq<Text>>, turn: nat },
    ClearNow { clear: Seq<Text>, with_psk: Option<Seq<Text>>, turn: nat },
    Retreat { entries: Seq<(Text, PeerInfoModel)> },
    Single { entries: Seq<(Text, PeerInfoModel)>, state: WgStateModel, turn: nat },
    Applied { entries: Seq<(Text, PeerInfoModel)>, state: WgStateModel, turn: nat },
    Switch { candidates: Seq<(Text, Seq<Text>)>, turn: nat },
    Sweep,
    Remove { stale: Seq<Text>, turn: nat },
    Done,
}

impl DeepView for SnapshotStage {
    type V = SnapshotStageModel;

    open spec fn deep_view(&self) -> SnapshotStageModel {
        match *self {
            SnapshotStage::Begin => SnapshotStageModel::Begin,
            SnapshotStage::Configure => SnapshotStageModel::Configure,
            SnapshotStage::Restored { entries, clear } => SnapshotStageModel::Restored {
                entries: entries.deep_view(),
                clear: clear.deep_view(),
            },
            SnapshotStage::Query { clear } => SnapshotStageModel::Query {
                clear: clear.deep_view(),
            },
            SnapshotStage::Clear { clear, with_psk, turn } => SnapshotStageModel::Clear {
                clear: clear.deep_view(),
                with_psk: with_psk.deep_view(),
                turn: turn as nat,
            },
            SnapshotStage::ClearNow { clear, with_psk, turn } => SnapshotStageModel::ClearNow {
                clear: clear.deep_view(),
                with_psk: with_psk.deep_view(),
                turn: turn as nat,
            },
            SnapshotStage::Retreat { entries } => SnapshotStageModel::Retreat {
                entries: entries.deep_view(),
            },
            SnapshotStage::Single { entries, state, turn } => SnapshotStageModel::Single {
                entries: entries.deep_view(),
                state: state.deep_view(),
                turn: turn as nat,
            },
            SnapshotStage::Applied { entries, state, turn } => SnapshotStageModel::Applied {
                entries: entries.deep_view(),
                state: state.deep_view(),
                turn: turn as nat,
            },
            SnapshotStage::Switch { candidates, turn } => SnapshotStageModel::Switch {
                candidates: candidates.deep_view(),
                turn: turn as nat,
            },
            SnapshotStage::Sweep => SnapshotStageModel::Sweep,
            SnapshotStage::Remove { stale, turn } => SnapshotStageModel::Remove {
                stale: stale.deep_view(),
                turn: turn as nat,
            },
            SnapshotStage::Done => SnapshotStageModel::Done,
        }
    }
}

/// What a pass works on, which stays as it is until the pass is done.
pub struct SnapshotScene<'a> {
    pub interface: &'a str,
    pub local_pubkey: &'a str,
    pub snapshot: &'a FullSnapshot,
    pub lan: &'a Lan,
}

/// What a `SnapshotScene` says.
#[verifier::ext_equal]
pub struct SnapshotSceneModel {
    pub interface: Text,
    pub local_pubkey: Text,
    pub snapshot: SnapshotModel,
    pub lan: LanModel,
}

impl<'a> DeepView for SnapshotScene<'a> {
    type V = SnapshotSceneModel;

    open spec fn deep_view(&self) -> SnapshotSceneModel {
        SnapshotSceneModel {
            interface: self.interface@,
            local_pubkey: self.local_pubkey@,
            snapshot: self.snapshot.deep_view(),
            lan: self.lan.deep_view(),
        }
    }
}

/// What a step leads to.
#[verifier::ext_equal]
pub struct SnapshotOutcome {
    pub relays: RelaysModel,
    pub queue: Seq<RetryModel>,
    pub stage: SnapshotStageModel,
    pub action: Option<SnapshotActionModel>,
}

/// The task for a peer that could not be put on the interface.
pub open spec fn entry_task(entry: (Text, PeerInfoModel), now: u64) -> RetryModel {
    RetryModel {
        pubkey: entry.0,
        endpoint: entry.1.endpoint,
        allowed_ips: entry.1.allowed_ips,
        persistent_keepalive: entry.1.persistent_keepalive,
        preshared_key: entry.1.preshared_key,
        retry_count: 0,
        last_attempt: now,
    }
}

impl SnapshotSceneModel {
    /// The peers that are put on the interface, where it is in that state.
    pub open spec fn entries(
        self,
        bound: Entries<Text>,
        state: WgStateModel,
        now_secs: u64,
    ) -> Seq<(Text, PeerInfoModel)> {
        entries_of(
            self.snapshot,
            self.local_pubkey,
            bound,
            state,
            self.lan,
            now_secs,
            self.snapshot.peers.keys.len(),
        )
    }

    /// The stage in which peers are switched to local endpoints.
    pub open spec fn switching(self) -> SnapshotStageModel {
        SnapshotStageModel::Switch {
            candidates: local_peers(
                self.snapshot,
                self.local_pubkey,
                self.snapshot.peers.keys.len(),
            ),
            turn: 0,
        }
    }

    /// The stage and the action that follow, where the memory stays as it is.
    /// The peers go on all at once; where there are none, that went well.
    pub open spec fn at_configure(
        self,
        bound: Entries<Text>,
        reply: ReplyModel,
        now_secs: u64,
    ) -> (SnapshotStageModel, Option<SnapshotActionModel>) {
        let entries = self.entries(bound, reply.read_state(), now_secs);
        if entries.len() == 0 {
            (
                SnapshotStageModel::Query { clear: Seq::empty() },
                Some(SnapshotActionModel::ReadPsk),
            )
        } else {
            (
                SnapshotStageModel::Restored {
                    entries,
                    clear: clear_list(entries, self.local_pubkey),
                },
                Some(
                    SnapshotActionModel::Restore {
                        conf: joined(conf_lines(entries, self.local_pubkey), "\n"@),
                    },
                ),
            )
        }
    }

    /// All went on at once, and keys may have to be cleared; or they go on one
    /// by one.
    pub open spec fn after_restoring(
        self,
        entries: Seq<(Text, PeerInfoModel)>,
        clear: Seq<Text>,
        reply: ReplyModel,
    ) -> (SnapshotStageModel, Option<SnapshotActionModel>) {
        if reply.ok {
            (SnapshotStageModel::Query { clear }, Some(SnapshotActionModel::ReadPsk))
        } else {
            (
                SnapshotStageModel::Retreat { entries },
                Some(SnapshotActionModel::ReadState { fresh: false }),
            )
        }
    }

    /// The next peer's key is cleared, where that is wanted.
    pub open spec fn at_clear(
        self,
        clear: Seq<Text>,
        with_psk: Option<Seq<Text>>,
        turn: nat,
    ) -> (SnapshotStageModel, Option<SnapshotActionModel>) {
        if turn >= clear.len() {
            (self.switching(), None)
        } else if psk_clear_wanted(self.snapshot, clear[turn as int], with_psk) {
            (
                SnapshotStageModel::ClearNow { clear, with_psk, turn },
                Some(SnapshotActionModel::ReadState { fresh: true }),
            )
        } else {
            (SnapshotStageModel::Clear { clear, with_psk, turn: turn + 1 }, None)
        }
    }

    /// The peer goes on anew, without a key.
    pub open spec fn at_clear_now(
        self,
        clear: Seq<Text>,
        with_psk: Option<Seq<Text>>,
        turn: nat,
        reply: ReplyModel,
        now_secs: u64,
    ) -> (SnapshotStageModel, Option<SnapshotActionModel>) {
        let pubkey = clear[turn as int];
        (
            SnapshotStageModel::Clear { clear, with_psk, turn: turn + 1 },
            match self.snapshot.peers.get(pubkey) {
                Some(peer) => Some(
                    SnapshotActionModel::Apply {
                        plan: psk_clear_plan(
                            self.interface,
                            pubkey,
                            peer,
                            reply.read_state(),
                            self.lan,
                            now_secs,
                        ),
                    },
                ),
                None => None,
            },
        )
    }

    /// The next peer goes on by itself.
    pub open spec fn at_single(
        self,
        entries: Seq<(Text, PeerInfoModel)>,
        state: WgStateModel,
        turn: nat,
    ) -> (SnapshotStageModel, Option<SnapshotActionModel>) {
        if turn >= entries.len() {
            (self.switching(), None)
        } else {
            (
                SnapshotStageModel::Applied { entries, state, turn },
                Some(
                    SnapshotActionModel::Apply {
                        plan: entry_plan(self.interface, entries[turn as int], state),
                    },
                ),
            )
        }
    }

    /// The next peer may be switched to a local endpoint.
    pub open spec fn at_switch(self, candidates: Seq<(Text, Seq<Text>)>, turn: nat) -> (
        SnapshotStageModel,
        Option<SnapshotActionModel>,
    ) {
        if turn >= candidates.len() {
            (
                SnapshotStageModel::Sweep,
                Some(SnapshotActionModel::ReadState { fresh: true }),
            )
        } else {
            (
                SnapshotStageModel::Switch { candidates, turn: turn + 1 },
                Some(
                    SnapshotActionModel::Switch {
                        pubkey: candidates[turn as int].0,
                        endpoints: candidates[turn as int].1,
                    },
                ),
            )
        }
    }

    /// One step of a pass.
    pub open spec fn step(
        self,
        relays: RelaysModel,
        queue: Seq<RetryModel>,
        stage: SnapshotStageModel,
        reply: ReplyModel,
        now_secs: u64,
        now: u64,
    ) -> SnapshotOutcome {
        let on = |next: (SnapshotStageModel, Option<SnapshotActionModel>)|
            SnapshotOutcome { relays, queue, stage: next.0, action: next.1 };
        match stage {
            SnapshotStageModel::Begin => on(
                (
                    SnapshotStageModel::Configure,
                    Some(SnapshotActionModel::ReadState { fresh: false }),
                ),
            ),
            SnapshotStageModel::Configure => on(self.at_configure(relays.bound, reply, now_secs)),
            SnapshotStageModel::Restored { entries, clear } => on(
                self.after_restoring(entries, clear, reply),
            ),
            SnapshotStageModel::Query { clear } => on(
                (
                    SnapshotStageModel::Clear { clear, with_psk: reply.with_psk, turn: 0 },
                    None,
                ),
            ),
            SnapshotStageModel::Clear { clear, with_psk, turn } => on(
                self.at_clear(clear, with_psk, turn),
            ),
            SnapshotStageModel::ClearNow { clear, with_psk, turn } => on(
                self.at_clear_now(clear, with_psk, turn, reply, now_secs),
            ),
            SnapshotStageModel::Retreat { entries } => on(
                (
                    SnapshotStageModel::Single { entries, state: reply.read_state(), turn: 0 },
                    None,
                ),
            ),
            SnapshotStageModel::Single { entries, state, turn } => on(
                self.at_single(entries, state, turn),
            ),
            SnapshotStageModel::Applied { entries, state, turn } => SnapshotOutcome {
                relays,
                queue: if reply.ok {
                    queue
                } else {
                    enqueued(queue, entry_task(entries[turn as int], now))
                },
                stage: SnapshotStageModel::Single { entries, state, turn: turn + 1 },
                action: None,
            },
            SnapshotStageModel::Switch { candidates, turn } => on(
                self.at_switch(candidates, turn),
            ),
            SnapshotStageModel::Sweep => on(
                (
                    SnapshotStageModel::Remove {
                        stale: stale_of(reply.read_state(), self.snapshot, self.local_pubkey),
                        turn: 0,
                    },
                    None,
                ),
            ),
            SnapshotStageModel::Remove { stale, turn } => if turn >= stale.len() {
                on((SnapshotStageModel::Done, None))
            } else {
                SnapshotOutcome {
                    relays: relays.without(stale[turn as int]),
                    queue,
                    stage: SnapshotStageModel::Remove { stale, turn: turn + 1 },
                    action: Some(
                        SnapshotActionModel::RemovePeer { pubkey: stale[turn as int] },
                    ),
                }
            },
            SnapshotStageModel::Done => on((SnapshotStageModel::Done, None)),
        }
    }

    /// The turn of the stage is one of its list, or behind its end where the
    /// stage looks for that.
    pub open spec fn holds(self, stage: SnapshotStageModel) -> bool {
        match stage {
            SnapshotStageModel::Clear { clear, with_psk: _, turn } => turn <= clear.len(),
            SnapshotStageModel::ClearNow { clear, with_psk: _, turn } => turn < clear.len(),
            SnapshotStageModel::Single { entries, state: _, turn } => turn <= entries.len(),
            SnapshotStageModel::Applied { entries, state: _, turn } => turn < entries.len(),
            SnapshotStageModel::Switch { candidates, turn } => turn <= candidates.len(),
            SnapshotStageModel::Remove { stale, turn } => turn <= stale.len(),
            _ => true,
        }
    }
}

/// A stage and what it asks for.
type SnapshotMove = (SnapshotStage, Option<SnapshotAction>);

impl<'a> SnapshotScene<'a> {
    /// The stage in which peers are switched to local endpoints.
    fn go_switching(&self) -> (to: SnapshotMove)
        ensures
            to.deep_view() == (self.deep_view().switching(), None::<SnapshotActionModel>),
    {
        let candidates = lan_candidates(self.snapshot, self.local_pubkey);
        (SnapshotStage::Switch { candidates, turn: 0 }, None)
    }

    /// All peers go on at once.
    fn configure(&self, relays: &Relays, state: WgState, now_secs: u64) -> (to: SnapshotMove)
        ensures
            forall|reply: ReplyModel|
                reply.read_state() == state.deep_view() ==> to.deep_view()
                    == #[trigger] self.deep_view().at_configure(
                    relays.deep_view().bound,
                    reply,
                    now_secs,
                ),
    {
        let entries = config_entries(
            self.snapshot,
            self.local_pubkey,
            &relays.bound,
            &state,
            self.lan,
            now_secs,
        );
        assert(entries@.len() == entries.deep_view().len());
        match batch_restore_peers(&entries, self.local_pubkey) {
            Some(batch) => (
                SnapshotStage::Restored { entries, clear: batch.clear_psk_peers },
                Some(SnapshotAction::Restore { conf: batch.conf }),
            ),
            None => (SnapshotStage::Query { clear: Vec::new() }, Some(SnapshotAction::ReadPsk)),
        }
    }

    /// The next peer's key is cleared, where that is wanted.
    fn clear_next(&self, clear: Vec<String>, with_psk: Option<Vec<String>>, turn: usize) -> (to:
        SnapshotMove)
        requires
            turn <= clear.deep_view().len(),
        ensures
            to.deep_view() == self.deep_view().at_clear(
                clear.deep_view(),
                with_psk.deep_view(),
                turn as nat,
            ),
    {
        assert(clear@.len() == clear.deep_view().len());
        if turn >= clear.len() {
            return self.go_switching();
        }
        assert(clear.deep_view()[turn as int] == clear@[turn as int]@);
        if psk_clear_due(self.snapshot, clear[turn].as_str(), &with_psk) {
            (
                SnapshotStage::ClearNow { clear, with_psk, turn },
                Some(SnapshotAction::ReadState { fresh: true }),
            )
        } else {
            (SnapshotStage::Clear { clear, with_psk, turn: turn + 1 }, None)
        }
    }

    /// The peer goes on anew, without a key.
    fn clear_now(
        &self,
        clear: Vec<String>,
        with_psk: Option<Vec<String>>,
        turn: usize,
        state: WgState,
        now_secs: u64,
    ) -> (to: SnapshotMove)
        requires
            turn < clear.deep_view().len(),
        ensures
            forall|reply: ReplyModel|
                reply.read_state() == state.deep_view() ==> to.deep_view()
                    == #[trigger] self.deep_view().at_clear_now(
                    clear.deep_view(),
                    with_psk.deep_view(),
                    turn as nat,
                    reply,
                    now_secs,
                ),
    {
        assert(clear.deep_view()[turn as int] == clear@[turn as int]@);
        assert(turn < clear.len());
        let action = match plan_psk_clear(
            self.interface,
            self.snapshot,
            clear[turn].as_str(),
            &state,
            self.lan,
            now_secs,
        ) {
            Some(plan) => Some(SnapshotAction::Apply { plan }),
            None => None,
        };
        (SnapshotStage::Clear { clear, with_psk, turn: turn + 1 }, action)
    }

    /// The next peer goes on by itself.
    fn apply_next(&self, entries: Vec<(String, PeerInfo)>, state: WgState, turn: usize) -> (to:
        SnapshotMove)
        requires
            turn <= entries.deep_view().len(),
        ensures
            to.deep_view() == self.deep_view().at_single(
                entries.deep_view(),
                state.deep_view(),
                turn as nat,
            ),
    {
        assert(entries@.len() == entries.deep_view().len());
        if turn >= entries.len() {
            return self.go_switching();
        }
        assert(entries.deep_view()[turn as int] == entries@[turn as int].deep_view());
        let plan = plan_entry(self.interface, &entries[turn], &state);
        (SnapshotStage::Applied { entries, state, turn }, Some(SnapshotAction::Apply { plan }))
    }

    /// The next peer may be switched to a local endpoint.
    fn switch_next(&self, candidates: Vec<(String, Vec<String>)>, turn: usize) -> (to: SnapshotMove)
        requires
            turn <= candidates.deep_view().len(),
        ensures
            to.deep_view() == self.deep_view().at_switch(candidates.deep_view(), turn as nat),
    {
        assert(candidates@.len() == candidates.deep_view().len());
        if turn >= candidates.len() {
            return (SnapshotStage::Sweep, Some(SnapshotAction::ReadState { fresh: true }));
        }
        assert(candidates.deep_view()[turn as int] == candidates@[turn as int].deep_view());
        let pubkey = candidates[turn].0.clone();
        let endpoints = copied(&candidates[turn].1);
        (
            SnapshotStage::Switch { candidates, turn: turn + 1 },
            Some(SnapshotAction::Switch { pubkey, endpoints }),
        )
    }
}

/// A pass and where it stands.
pub struct SnapshotPass<'a> {
    scene: SnapshotScene<'a>,
    stage: SnapshotStage,
}

impl<'a> SnapshotPass<'a> {
    #[verifier::type_invariant]
    closed spec fn in_place(self) -> bool {
        self.scene.deep_view().holds(self.stage.deep_view())
    }

    /// What the pass works on.
    pub closed spec fn scene(self) -> SnapshotSceneModel {
        self.scene.deep_view()
    }

    /// Where the pass stands.
    pub closed spec fn stage(self) -> SnapshotStageModel {
        self.stage.deep_view()
    }

    /// A pass that is about to begin.
    pub fn new(scene: SnapshotScene<'a>) -> (pass: SnapshotPass<'a>)
        ensures
            pass.scene() == scene.deep_view(),
            pass.stage() == SnapshotStageModel::Begin,
    {
        SnapshotPass { scene, stage: SnapshotStage::Begin }
    }

    /// Whether nothing is left to do.
    pub fn is_done(&self) -> (answer: bool)
        ensures
            answer == (self.stage() is Done),
    {
        match self.stage {
            SnapshotStage::Done => true,
            _ => false,
        }
    }
}

/// The state that was read, or an empty one.
fn state_of(reply: Option<WgState>) -> (state: WgState)
    ensures
        state.deep_view() == match reply.deep_view() {
            Some(read) => read,
            None => WgState::nothing(),
        },
{
    match reply {
        Some(state) => state,
        None => WgState::empty(),
    }
}

/// One step of a pass over the peers of a full state.
pub fn apply_snapshot(
    pass: &mut SnapshotPass,
    relays: &mut Relays,
    queue: &mut RetryQueue,
    reply: Reply,
    now_secs: u64,
    now: u64,
) -> (action: Option<SnapshotAction>)
    ensures
        final(pass).scene() == old(pass).scene(),
        ({
            let outcome = old(pass).scene().step(
                old(relays).deep_view(),
                old(queue).deep_view(),
                old(pass).stage(),
                reply.deep_view(),
                now_secs,
                now,
            );
            &&& final(pass).stage() == outcome.stage
            &&& final(relays).deep_view() == outcome.relays
            &&& final(queue).deep_view() == outcome.queue
            &&& action.deep_view() == outcome.action
        }),
{
    proof {
        use_type_invariant(&*pass);
    }
    let mut stage = SnapshotStage::Done;
    std::mem::swap(&mut stage, &mut pass.stage);
    let (to, action) = match stage {
        SnapshotStage::Begin => (
            SnapshotStage::Configure,
            Some(SnapshotAction::ReadState { fresh: false }),
        ),
        SnapshotStage::Configure => pass.scene.configure(relays, state_of(reply.state), now_secs),
        SnapshotStage::Restored { entries, clear } => {
            if reply.ok {
                (SnapshotStage::Query { clear }, Some(SnapshotAction::ReadPsk))
            } else {
                (
                    SnapshotStage::Retreat { entries },
                    Some(SnapshotAction::ReadState { fresh: false }),
                )
            }
        },
        SnapshotStage::Query { clear } => (
            SnapshotStage::Clear { clear, with_psk: reply.with_psk, turn: 0 },
            None,
        ),
        SnapshotStage::Clear { clear, with_psk, turn } => pass.scene.clear_next(
            clear,
            with_psk,
            turn,
        ),
        SnapshotStage::ClearNow { clear, with_psk, turn } => pass.scene.clear_now(
            clear,
            with_psk,
            turn,
            state_of(reply.state),
            now_secs,
        ),
        SnapshotStage::Retreat { entries } => (
            SnapshotStage::Single { entries, state: state_of(reply.state), turn: 0 },
            None,
        ),
        SnapshotStage::Single { entries, state, turn } => pass.scene.apply_next(
            entries,
            state,
            turn,
        ),
        SnapshotStage::Applied { entries, state, turn } => {
            assert(entries@.len() == entries.deep_view().len());
            assert(entries.deep_view()[turn as int] == entries@[turn as int].deep_view());
            assert(turn < entries.len());
            if !reply.ok {
                let entry = &entries[turn];
                queue.enqueue(
                    entry.0.clone(),
                    copied_option(&entry.1.endpoint),
                    copied_list(&entry.1.allowed_ips),
                    entry.1.persistent_keepalive,
                    copied_option(&entry.1.preshared_key),
                    now,
                );
            }
            (SnapshotStage::Single { entries, state, turn: turn + 1 }, None)
        },
        SnapshotStage::Switch { candidates, turn } => pass.scene.switch_next(candidates, turn),
        SnapshotStage::Sweep => {
            let state = state_of(reply.state);
            let stale = stale_peers(&state, pass.scene.snapshot, pass.scene.local_pubkey);
            (SnapshotStage::Remove { stale, turn: 0 }, None)
        },
        SnapshotStage::Remove { stale, turn } => {
            assert(stale@.len() == stale.deep_view().len());
            if turn >= stale.len() {
                (SnapshotStage::Done, None)
            } else {
                assert(stale.deep_view()[turn as int] == stale@[turn as int]@);
                let pubkey = stale[turn].clone();
                relays.forget(pubkey.as_str());
                (
                    SnapshotStage::Remove { stale, turn: turn + 1 },
                    Some(SnapshotAction::RemovePeer { pubkey }),
                )
            }
        },
        SnapshotStage::Done => (SnapshotStage::Done, None),
    };
    pass.stage = to;
    action
}

// ---------- what holds of a pass ----------

impl SnapshotSceneModel {
    /// How many kinds of stages are still to come.
    pub open spec fn stages_ahead(self, stage: SnapshotStageModel) -> nat {
        match stage {
            SnapshotStageModel::Begin => 8,
            SnapshotStageModel::Configure => 7,
            SnapshotStageModel::Restored { entries: _, clear: _ } => 6,
            SnapshotStageModel::Query { clear: _ } => 5,
            SnapshotStageModel::Retreat { entries: _ } => 5,
            SnapshotStageModel::Clear { clear: _, with_psk: _, turn: _ } => 4,
            SnapshotStageModel::ClearNow { clear: _, with_psk: _, turn: _ } => 4,
            SnapshotStageModel::Single { entries: _, state: _, turn: _ } => 4,
            SnapshotStageModel::Applied { entries: _, state: _, turn: _ } => 4,
            SnapshotStageModel::Switch { candidates: _, turn: _ } => 3,
            SnapshotStageModel::Sweep => 2,
            SnapshotStageModel::Remove { stale: _, turn: _ } => 1,
            SnapshotStageModel::Done => 0,
        }
    }

    /// How many peers of the stage's list are still to come.
    pub open spec fn peers_ahead(self, stage: SnapshotStageModel) -> int {
        match stage {
            SnapshotStageModel::Clear { clear, with_psk: _, turn } => clear.len() - turn,
            SnapshotStageModel::ClearNow { clear, with_psk: _, turn } => clear.len() - turn,
            SnapshotStageModel::Single { entries, state: _, turn } => entries.len() - turn,
            SnapshotStageModel::Applied { entries, state: _, turn } => entries.len() - turn,
            SnapshotStageModel::Switch { candidates, turn } => candidates.len() - turn,
            SnapshotStageModel::Remove { stale, turn } => stale.len() - turn,
            _ => 0,
        }
    }

    /// How many replies are still to come for that peer.
    pub open spec fn replies_ahead(self, stage: SnapshotStageModel) -> nat {
        match stage {
            SnapshotStageModel::Clear { clear: _, with_psk: _, turn: _ } => 1,
            SnapshotStageModel::Single { entries: _, state: _, turn: _ } => 1,
            _ => 0,
        }
    }

    /// The peers that a stage is to remove are unknown to the full state, and
    /// those it puts on the interface are known to it.
    pub open spec fn sound(self, stage: SnapshotStageModel) -> bool {
        match stage {
            SnapshotStageModel::Restored { entries, clear: _ } => self.all_known(entries),
            SnapshotStageModel::Retreat { entries } => self.all_known(entries),
            SnapshotStageModel::Single { entries, state: _, turn: _ } => self.all_known(entries),
            SnapshotStageModel::Applied { entries, state: _, turn: _ } => self.all_known(entries),
            SnapshotStageModel::Remove { stale, turn: _ } => forall|i: int|
                0 <= i < stale.len() ==> is_stale(
                    self.snapshot,
                    self.local_pubkey,
                    #[trigger] stale[i],
                ),
            _ => true,
        }
    }

    /// All those peers are known to the full state, and none is this node.
    pub open spec fn all_known(self, entries: Seq<(Text, PeerInfoModel)>) -> bool {
        forall|i: int|
            0 <= i < entries.len() ==> self.snapshot.peers.has((#[trigger] entries[i]).0)
                && entries[i].0 != self.local_pubkey
    }
}

/// Every step of a pass brings it nearer to its end, so that every pass ends,
/// whatever the replies are.
pub proof fn law_snapshot_pass_ends(
    scene: SnapshotSceneModel,
    relays: RelaysModel,
    queue: Seq<RetryModel>,
    stage: SnapshotStageModel,
    reply: ReplyModel,
    now_secs: u64,
    now: u64,
)
    requires
        scene.holds(stage),
        !(stage is Done),
    ensures
        ({
            let outcome = scene.step(relays, queue, stage, reply, now_secs, now);
            &&& scene.holds(outcome.stage)
            &&& decreases_to!(
                scene.stages_ahead(stage),
                scene.peers_ahead(stage),
                scene.replies_ahead(stage) =>
                scene.stages_ahead(outcome.stage),
                scene.peers_ahead(outcome.stage),
                scene.replies_ahead(outcome.stage)
            )
        }),
{
}

/// A pass removes only peers that the full state does not know, and never this
/// node: all stages of a pass are sound.
pub proof fn law_snapshot_pass_is_sound(
    scene: SnapshotSceneModel,
    relays: RelaysModel,
    queue: Seq<RetryModel>,
    stage: SnapshotStageModel,
    reply: ReplyModel,
    now_secs: u64,
    now: u64,
)
    requires
        scene.holds(stage),
        scene.sound(stage),
        scene.snapshot.peers.valid(),
    ensures
        ({
            let outcome = scene.step(relays, queue, stage, reply, now_secs, now);
            &&& scene.sound(outcome.stage)
            &&& outcome.action matches Some(SnapshotActionModel::RemovePeer { pubkey })
                ==> !scene.snapshot.peers.has(pubkey) && pubkey != scene.local_pubkey
        }),
{
    match stage {
        SnapshotStageModel::Configure => {
            lemma_entries_known(
                scene,
                relays.bound,
                reply.read_state(),
                now_secs,
                scene.snapshot.peers.keys.len(),
            );
        },
        SnapshotStageModel::Sweep => {
            let state = reply.read_state();
            let stale = stale_of(state, scene.snapshot, scene.local_pubkey);
            assert forall|i: int| 0 <= i < stale.len() implies is_stale(
                scene.snapshot,
                scene.local_pubkey,
                #[trigger] stale[i],
            ) by {
                assert(stale.contains(stale[i]));
                lemma_filter_contains(
                    state.peers.keys,
                    |k: Text| is_stale(scene.snapshot, scene.local_pubkey, k),
                    stale[i],
                );
            }
        },
        _ => {},
    }
}

/// The first peers that are put on the interface are known.
proof fn lemma_entries_known(
    scene: SnapshotSceneModel,
    bound: Entries<Text>,
    state: WgStateModel,
    now_secs: u64,
    count: nat,
)
    requires
        scene.snapshot.peers.valid(),
        count <= scene.snapshot.peers.keys.len(),
    ensures
        scene.all_known(
            entries_of(
                scene.snapshot,
                scene.local_pubkey,
                bound,
                state,
                scene.lan,
                now_secs,
                count,
            ),
        ),
    decreases count,
{
    if count > 0 {
        lemma_entries_known(scene, bound, state, now_secs, (count - 1) as nat);
        let last = scene.snapshot.peers.keys[count - 1];
        assert(scene.snapshot.peers.keys.contains(last));
        assert(is_direct(scene.local_pubkey, bound, last) ==> last != scene.local_pubkey);
    }
}

/// No peer is lost where it cannot be put on the interface by itself: it waits
/// to be tried again, as long as there is room.
pub proof fn law_failed_peer_waits(
    scene: SnapshotSceneModel,
    relays: RelaysModel,
    queue: Seq<RetryModel>,
    entries: Seq<(Text, PeerInfoModel)>,
    state: WgStateModel,
    turn: nat,
    reply: ReplyModel,
    now_secs: u64,
    now: u64,
)
    requires
        turn < entries.len(),
        !reply.ok,
        queue.len() < MAX_RETRY_QUEUE_SIZE,
    ensures
        scene.step(
            relays,
            queue,
            SnapshotStageModel::Applied { entries, state, turn },
            reply,
            now_secs,
            now,
        ).queue == queue.push(entry_task(entries[turn as int], now)),
{
}

/// A key is cleared only where the full state asks for it: the plan removes
/// the peer, if it is there, and puts it on anew without a key.
pub proof fn law_only_wanted_keys_are_cleared(
    scene: SnapshotSceneModel,
    clear: Seq<Text>,
    with_psk: Option<Seq<Text>>,
    turn: nat,
)
    requires
        turn < clear.len(),
    ensures
        scene.at_clear(clear, with_psk, turn).0 is ClearNow <==> psk_clear_wanted(
            scene.snapshot,
            clear[turn as int],
            with_psk,
        ),
{
}

// ---------- what holds of a whole pass ----------

/// What a step is given: the reply to the step before, and the time.
#[verifier::ext_equal]
pub struct SnapshotInput {
    pub reply: ReplyModel,
    pub now_secs: u64,
    pub now: u64,
}

/// How far a pass has come: what is remembered, where it stands, and what it
/// has asked for.
#[verifier::ext_equal]
pub struct SnapshotProgress {
    pub relays: RelaysModel,
    pub queue: Seq<RetryModel>,
    pub stage: SnapshotStageModel,
    pub actions: Seq<SnapshotActionModel>,
}

impl SnapshotSceneModel {
    /// How far a pass has come with those steps.
    pub open spec fn run(
        self,
        relays: RelaysModel,
        queue: Seq<RetryModel>,
        inputs: Seq<SnapshotInput>,
    ) -> SnapshotProgress
        decreases inputs.len(),
    {
        if inputs.len() == 0 {
            SnapshotProgress {
                relays,
                queue,
                stage: SnapshotStageModel::Begin,
                actions: Seq::empty(),
            }
        } else {
            let before = self.run(relays, queue, inputs.drop_last());
            let outcome = self.step(
                before.relays,
                before.queue,
                before.stage,
                inputs.last().reply,
                inputs.last().now_secs,
                inputs.last().now,
            );
            SnapshotProgress {
                relays: outcome.relays,
                queue: outcome.queue,
                stage: outcome.stage,
                actions: match outcome.action {
                    Some(action) => before.actions.push(action),
                    None => before.actions,
                },
            }
        }
    }
}

/// In any number of steps of a pass, whatever the replies were, the peers that
/// are removed are unknown to the full state, and none is this node; and a peer
/// that the full state knows stays with its relay, if it has one.
pub proof fn law_snapshot_pass_spares_known_peers(
    scene: SnapshotSceneModel,
    relays: RelaysModel,
    queue: Seq<RetryModel>,
    inputs: Seq<SnapshotInput>,
)
    requires
        scene.snapshot.peers.valid(),
    ensures
        ({
            let run = scene.run(relays, queue, inputs);
            &&& scene.holds(run.stage)
            &&& scene.sound(run.stage)
            &&& forall|i: int, pubkey: Text|
                0 <= i < run.actions.len() && #[trigger] run.actions[i]
                    == (#[trigger] removal_of(pubkey)) ==> is_stale(
                    scene.snapshot,
                    scene.local_pubkey,
                    pubkey,
                )
            &&& forall|pubkey: Text|
                scene.snapshot.peers.has(pubkey) ==> #[trigger] run.relays.bound.get(pubkey)
                    == relays.bound.get(pubkey)
        }),
    decreases inputs.len(),
{
    if inputs.len() > 0 {
        let front = inputs.drop_last();
        let last = inputs.last();
        law_snapshot_pass_spares_known_peers(scene, relays, queue, front);
        let before = scene.run(relays, queue, front);
        law_snapshot_pass_is_sound(
            scene,
            before.relays,
            before.queue,
            before.stage,
            last.reply,
            last.now_secs,
            last.now,
        );
        let run = scene.run(relays, queue, inputs);
        assert forall|i: int, pubkey: Text|
            0 <= i < run.actions.len() && #[trigger] run.actions[i] == (#[trigger] removal_of(
                pubkey,
            )) implies is_stale(scene.snapshot, scene.local_pubkey, pubkey) by {
            if i < before.actions.len() {
                assert(before.actions[i] == run.actions[i]);
            }
        }
        assert forall|pubkey: Text| scene.snapshot.peers.has(pubkey) implies
            #[trigger] run.relays.bound.get(pubkey) == relays.bound.get(pubkey) by {
            assert(before.relays.bound.get(pubkey) == relays.bound.get(pubkey));
            if let SnapshotStageModel::Remove { stale, turn } = before.stage {
                if turn < stale.len() {
                    assert(is_stale(scene.snapshot, scene.local_pubkey, stale[turn as int]));
                }
            }
        }
    }
}

/// What asks for that peer to be removed.
pub open spec fn removal_of(pubkey: Text) -> SnapshotActionModel {
    SnapshotActionModel::RemovePeer { pubkey }
}

// ---------- that a pass leaves nothing out ----------

/// What a pass has learned on its way: the state that it began with and when;
/// whether all peers went on at once; which peers have a pre-shared key; for
/// each peer whose key may be cleared, the state and the time at which that was
/// done; the state with which peers go on one by one; whether each of these
/// went on, and when; and the state in which it looks for peers that are gone.
#[verifier::ext_equal]
pub struct Learned {
    pub begun: WgStateModel,
    pub begun_secs: u64,
    pub at_once: bool,
    pub with_psk: Option<Seq<Text>>,
    pub cleared: Seq<(WgStateModel, u64)>,
    pub alone: WgStateModel,
    pub tried: Seq<(bool, u64)>,
    pub swept: WgStateModel,
}

/// The queue after those peers were tried one by one: those that did not go on
/// wait.
pub open spec fn waiting(
    queue: Seq<RetryModel>,
    entries: Seq<(Text, PeerInfoModel)>,
    tried: Seq<(bool, u64)>,
) -> Seq<RetryModel>
    decreases tried.len(),
{
    if tried.len() == 0 {
        queue
    } else {
        let before = waiting(queue, entries, tried.drop_last());
        let (ok, now) = tried.last();
        if ok {
            before
        } else {
            enqueued(before, entry_task(entries[tried.len() - 1], now))
        }
    }
}

/// What is remembered once those peers are gone.
pub open spec fn without_all(relays: RelaysModel, gone: Seq<Text>) -> RelaysModel
    decreases gone.len(),
{
    if gone.len() == 0 {
        relays
    } else {
        without_all(relays, gone.drop_last()).without(gone.last())
    }
}

impl SnapshotSceneModel {
    /// What a pass has learned with those steps.
    pub open spec fn learned(
        self,
        relays: RelaysModel,
        queue: Seq<RetryModel>,
        inputs: Seq<SnapshotInput>,
    ) -> Learned
        decreases inputs.len(),
    {
        if inputs.len() == 0 {
            Learned {
                begun: WgState::nothing(),
                begun_secs: 0,
                at_once: true,
                with_psk: None,
                cleared: Seq::empty(),
                alone: WgState::nothing(),
                tried: Seq::empty(),
                swept: WgState::nothing(),
            }
        } else {
            let before = self.learned(relays, queue, inputs.drop_last());
            let last = inputs.last();
            let state = last.reply.read_state();
            match self.run(relays, queue, inputs.drop_last()).stage {
                SnapshotStageModel::Configure => Learned {
                    begun: state,
                    begun_secs: last.now_secs,
                    ..before
                },
                SnapshotStageModel::Restored { entries: _, clear: _ } => Learned {
                    at_once: last.reply.ok,
                    ..before
                },
                SnapshotStageModel::Query { clear: _ } => Learned {
                    with_psk: last.reply.with_psk,
                    ..before
                },
                SnapshotStageModel::Clear { clear, with_psk, turn } => if turn < clear.len()
                    && !psk_clear_wanted(self.snapshot, clear[turn as int], with_psk) {
                    Learned { cleared: before.cleared.push((WgState::nothing(), 0)), ..before }
                } else {
                    before
                },
                SnapshotStageModel::ClearNow { clear: _, with_psk: _, turn: _ } => Learned {
                    cleared: before.cleared.push((state, last.now_secs)),
                    ..before
                },
                SnapshotStageModel::Retreat { entries: _ } => Learned { alone: state, ..before },
                SnapshotStageModel::Applied { entries: _, state: _, turn: _ } => Learned {
                    tried: before.tried.push((last.reply.ok, last.now)),
                    ..before
                },
                SnapshotStageModel::Sweep => Learned { swept: state, ..before },
                _ => before,
            }
        }
    }

    /// The peers that go on.
    pub open spec fn going(self, bound: Entries<Text>, seen: Learned) -> Seq<
        (Text, PeerInfoModel),
    > {
        self.entries(bound, seen.begun, seen.begun_secs)
    }

    /// The peers whose key may have to be cleared.
    pub open spec fn clearing(self, bound: Entries<Text>, seen: Learned) -> Seq<Text> {
        clear_list(self.going(bound, seen), self.local_pubkey)
    }

    /// The peers with endpoints in a local network.
    pub open spec fn candidates(self) -> Seq<(Text, Seq<Text>)> {
        local_peers(self.snapshot, self.local_pubkey, self.snapshot.peers.keys.len())
    }

    /// The peers that go.
    pub open spec fn leaving(self, seen: Learned) -> Seq<Text> {
        stale_of(seen.swept, self.snapshot, self.local_pubkey)
    }

    /// The configuration of all peers that go on.
    pub open spec fn restoring(self, entries: Seq<(Text, PeerInfoModel)>) -> SnapshotActionModel {
        SnapshotActionModel::Restore {
            conf: joined(conf_lines(entries, self.local_pubkey), "\n"@),
        }
    }

    /// A peer that goes on by itself.
    pub open spec fn applying(
        self,
        entry: (Text, PeerInfoModel),
        state: WgStateModel,
    ) -> SnapshotActionModel {
        SnapshotActionModel::Apply { plan: entry_plan(self.interface, entry, state) }
    }

    /// A peer that goes on anew without a key.
    pub open spec fn unkeying(
        self,
        pubkey: Text,
        state: WgStateModel,
        now_secs: u64,
    ) -> SnapshotActionModel {
        SnapshotActionModel::Apply {
            plan: psk_clear_plan(
                self.interface,
                pubkey,
                self.snapshot.peers.map[pubkey],
                state,
                self.lan,
                now_secs,
            ),
        }
    }

    /// The beginning: the state is read, and all peers go on at once, where
    /// there are any.
    pub open spec fn opening(self, bound: Entries<Text>, seen: Learned) -> Seq<
        SnapshotActionModel,
    > {
        let entries = self.going(bound, seen);
        if entries.len() == 0 {
            seq![SnapshotActionModel::ReadState { fresh: false }]
        } else {
            seq![SnapshotActionModel::ReadState { fresh: false }, self.restoring(entries)]
        }
    }

    /// The first keys are cleared, as far as that is wanted.
    pub open spec fn clears(
        self,
        clear: Seq<Text>,
        with_psk: Option<Seq<Text>>,
        cleared: Seq<(WgStateModel, u64)>,
    ) -> Seq<SnapshotActionModel>
        decreases cleared.len(),
    {
        if cleared.len() == 0 {
            Seq::empty()
        } else {
            let before = self.clears(clear, with_psk, cleared.drop_last());
            let pubkey = clear[cleared.len() - 1];
            if psk_clear_wanted(self.snapshot, pubkey, with_psk) {
                before.push(SnapshotActionModel::ReadState { fresh: true }).push(
                    self.unkeying(pubkey, cleared.last().0, cleared.last().1),
                )
            } else {
                before
            }
        }
    }

    /// The first of the peers go on one by one, `count` of them.
    pub open spec fn singles(
        self,
        entries: Seq<(Text, PeerInfoModel)>,
        state: WgStateModel,
        count: nat,
    ) -> Seq<SnapshotActionModel> {
        Seq::new(count, |i: int| self.applying(entries[i], state))
    }

    /// All went on at once, or there was none to go on.
    pub open spec fn went_at_once(self, bound: Entries<Text>, seen: Learned) -> bool {
        self.going(bound, seen).len() == 0 || seen.at_once
    }

    /// What is done until all peers are on the interface: all go on at once, and
    /// keys are cleared; or all go on one by one.
    pub open spec fn configuring(self, bound: Entries<Text>, seen: Learned) -> Seq<
        SnapshotActionModel,
    > {
        if self.went_at_once(bound, seen) {
            self.opening(bound, seen).push(SnapshotActionModel::ReadPsk) + self.clears(
                self.clearing(bound, seen),
                seen.with_psk,
                seen.cleared,
            )
        } else {
            self.opening(bound, seen).push(SnapshotActionModel::ReadState { fresh: false })
                + self.singles(self.going(bound, seen), seen.alone, seen.tried.len())
        }
    }

    /// The first peers with local endpoints are switched, `count` of them.
    pub open spec fn switches(self, count: nat) -> Seq<SnapshotActionModel> {
        Seq::new(
            count,
            |i: int|
                SnapshotActionModel::Switch {
                    pubkey: self.candidates()[i].0,
                    endpoints: self.candidates()[i].1,
                },
        )
    }

    /// Those peers are removed.
    pub open spec fn removals(self, gone: Seq<Text>) -> Seq<SnapshotActionModel> {
        gone.map_values(|pubkey: Text| removal_of(pubkey))
    }

    /// What is done until the peers that are gone are sought.
    pub open spec fn before_sweep(self, bound: Entries<Text>, seen: Learned) -> Seq<
        SnapshotActionModel,
    > {
        (self.configuring(bound, seen) + self.switches(self.candidates().len())).push(
            SnapshotActionModel::ReadState { fresh: true },
        )
    }

    /// All that a pass does from its beginning to its end.
    pub open spec fn whole(self, bound: Entries<Text>, seen: Learned) -> Seq<SnapshotActionModel> {
        self.before_sweep(bound, seen) + self.removals(self.leaving(seen))
    }

    /// The queue once all peers are on the interface.
    pub open spec fn queue_after(
        self,
        queue: Seq<RetryModel>,
        bound: Entries<Text>,
        seen: Learned,
    ) -> Seq<RetryModel> {
        if self.went_at_once(bound, seen) {
            queue
        } else {
            waiting(queue, self.going(bound, seen), seen.tried)
        }
    }

    /// Everything that concerns the peers that go on has been done.
    pub open spec fn all_on(self, bound: Entries<Text>, seen: Learned) -> bool {
        if self.went_at_once(bound, seen) {
            seen.cleared.len() == self.clearing(bound, seen).len()
        } else {
            seen.tried.len() == self.going(bound, seen).len()
        }
    }

    /// How far a pass has come, by where it stands and what it has learned:
    /// what it has asked for, what waits, and what is remembered.
    pub open spec fn accounts_for(
        self,
        relays: RelaysModel,
        queue: Seq<RetryModel>,
        progress: SnapshotProgress,
        seen: Learned,
    ) -> bool {
        let entries = self.going(relays.bound, seen);
        let clear = self.clearing(relays.bound, seen);
        let opening = self.opening(relays.bound, seen);
        let at_once = self.went_at_once(relays.bound, seen);
        let actions = progress.actions;
        let untouched = progress.relays == relays && progress.queue == queue;
        match progress.stage {
            SnapshotStageModel::Begin => {
                &&& actions == Seq::<SnapshotActionModel>::empty()
                &&& untouched
                &&& seen.cleared.len() == 0 && seen.tried.len() == 0
                &&& seen.at_once
            },
            SnapshotStageModel::Configure => {
                &&& actions == seq![SnapshotActionModel::ReadState { fresh: false }]
                &&& untouched
                &&& seen.cleared.len() == 0 && seen.tried.len() == 0
                &&& seen.at_once
            },
            SnapshotStageModel::Restored { entries: held, clear: to_clear } => {
                &&& held == entries && to_clear == clear && entries.len() > 0
                &&& actions == opening
                &&& untouched
                &&& seen.cleared.len() == 0 && seen.tried.len() == 0
            },
            SnapshotStageModel::Query { clear: to_clear } => {
                &&& to_clear == clear
                &&& at_once
                &&& actions == opening.push(SnapshotActionModel::ReadPsk)
                &&& untouched
                &&& seen.cleared.len() == 0
            },
            SnapshotStageModel::Clear { clear: to_clear, with_psk, turn } => {
                &&& to_clear == clear && with_psk == seen.with_psk && turn == seen.cleared.len()
                &&& turn <= clear.len()
                &&& at_once
                &&& actions == self.configuring(relays.bound, seen)
                &&& untouched
            },
            SnapshotStageModel::ClearNow { clear: to_clear, with_psk, turn } => {
                &&& to_clear == clear && with_psk == seen.with_psk && turn == seen.cleared.len()
                &&& turn < clear.len() && psk_clear_wanted(
                    self.snapshot,
                    clear[turn as int],
                    with_psk,
                )
                &&& at_once
                &&& actions == self.configuring(relays.bound, seen).push(
                    SnapshotActionModel::ReadState { fresh: true },
                )
                &&& untouched
            },
            SnapshotStageModel::Retreat { entries: held } => {
                &&& held == entries
                &&& !at_once
                &&& actions == opening.push(SnapshotActionModel::ReadState { fresh: false })
                &&& untouched
                &&& seen.tried.len() == 0
            },
            SnapshotStageModel::Single { entries: held, state, turn } => {
                &&& held == entries && state == seen.alone && turn == seen.tried.len()
                &&& turn <= entries.len()
                &&& !at_once
                &&& actions == self.configuring(relays.bound, seen)
                &&& progress.relays == relays
                &&& progress.queue == waiting(queue, entries, seen.tried)
            },
            SnapshotStageModel::Applied { entries: held, state, turn } => {
                &&& held == entries && state == seen.alone && turn == seen.tried.len()
                &&& turn < entries.len()
                &&& !at_once
                &&& actions == self.configuring(relays.bound, seen).push(
                    self.applying(entries[turn as int], state),
                )
                &&& progress.relays == relays
                &&& progress.queue == waiting(queue, entries, seen.tried)
            },
            SnapshotStageModel::Switch { candidates, turn } => {
                &&& candidates == self.candidates() && turn <= candidates.len()
                &&& self.all_on(relays.bound, seen)
                &&& actions == self.configuring(relays.bound, seen) + self.switches(turn)
                &&& progress.relays == relays
                &&& progress.queue == self.queue_after(queue, relays.bound, seen)
            },
            SnapshotStageModel::Sweep => {
                &&& self.all_on(relays.bound, seen)
                &&& actions == self.before_sweep(relays.bound, seen)
                &&& progress.relays == relays
                &&& progress.queue == self.queue_after(queue, relays.bound, seen)
            },
            SnapshotStageModel::Remove { stale, turn } => {
                &&& stale == self.leaving(seen) && turn <= stale.len()
                &&& self.all_on(relays.bound, seen)
                &&& actions == self.before_sweep(relays.bound, seen) + self.removals(
                    stale.take(turn as int),
                )
                &&& progress.relays == without_all(relays, stale.take(turn as int))
                &&& progress.queue == self.queue_after(queue, relays.bound, seen)
            },
            SnapshotStageModel::Done => {
                &&& self.all_on(relays.bound, seen)
                &&& actions == self.whole(relays.bound, seen)
                &&& progress.relays == without_all(relays, self.leaving(seen))
                &&& progress.queue == self.queue_after(queue, relays.bound, seen)
            },
        }
    }
}

/// What a pass has done is, at each of its stages and whatever the replies
/// were, exactly what is to be done until there: nothing is left out, nothing
/// is done twice, and all comes in its order.
pub proof fn law_snapshot_pass_accounts_for_all(
    scene: SnapshotSceneModel,
    relays: RelaysModel,
    queue: Seq<RetryModel>,
    inputs: Seq<SnapshotInput>,
)
    ensures
        scene.accounts_for(
            relays,
            queue,
            scene.run(relays, queue, inputs),
            scene.learned(relays, queue, inputs),
        ),
    decreases inputs.len(),
{
    if inputs.len() > 0 {
        let front = inputs.drop_last();
        law_snapshot_pass_accounts_for_all(scene, relays, queue, front);
        lemma_accounts_step(scene, relays, queue, inputs);
    }
}

/// One more step keeps the account.
proof fn lemma_accounts_step(
    scene: SnapshotSceneModel,
    relays: RelaysModel,
    queue: Seq<RetryModel>,
    inputs: Seq<SnapshotInput>,
)
    requires
        inputs.len() > 0,
        scene.accounts_for(
            relays,
            queue,
            scene.run(relays, queue, inputs.drop_last()),
            scene.learned(relays, queue, inputs.drop_last()),
        ),
    ensures
        scene.accounts_for(
            relays,
            queue,
            scene.run(relays, queue, inputs),
            scene.learned(relays, queue, inputs),
        ),
{
    let before = scene.run(relays, queue, inputs.drop_last());
    let had = scene.learned(relays, queue, inputs.drop_last());
    let now = scene.run(relays, queue, inputs);
    let seen = scene.learned(relays, queue, inputs);
    let bound = relays.bound;
    let entries = scene.going(bound, seen);
    let clear = scene.clearing(bound, seen);
    match before.stage {
        SnapshotStageModel::Begin => {},
        SnapshotStageModel::Configure => {
            assert(now.actions =~= if entries.len() == 0 {
                scene.opening(bound, seen).push(SnapshotActionModel::ReadPsk)
            } else {
                scene.opening(bound, seen)
            });
            assert(entries.len() == 0 ==> clear =~= Seq::<Text>::empty());
        },
        SnapshotStageModel::Restored { entries: _, clear: _ } => {},
        SnapshotStageModel::Query { clear: _ } => {
            assert(now.actions =~= scene.configuring(bound, seen));
        },
        SnapshotStageModel::Clear { clear: _, with_psk: _, turn } => {
            if turn >= clear.len() {
                assert(now.actions =~= scene.configuring(bound, seen) + scene.switches(0));
            } else if !psk_clear_wanted(scene.snapshot, clear[turn as int], had.with_psk) {
                assert(seen.cleared.drop_last() =~= had.cleared);
                assert(now.actions =~= scene.configuring(bound, seen));
            }
        },
        SnapshotStageModel::ClearNow { clear: _, with_psk: _, turn } => {
            assert(seen.cleared.drop_last() =~= had.cleared);
            assert(scene.snapshot.peers.has(clear[turn as int]));
            assert(now.actions =~= scene.configuring(bound, seen));
        },
        SnapshotStageModel::Retreat { entries: _ } => {
            assert(now.actions =~= scene.configuring(bound, seen));
        },
        SnapshotStageModel::Single { entries: _, state: _, turn } => {
            if turn >= entries.len() {
                assert(now.actions =~= scene.configuring(bound, seen) + scene.switches(0));
            }
        },
        SnapshotStageModel::Applied { entries: _, state: _, turn } => {
            assert(seen.tried.drop_last() =~= had.tried);
            assert(now.actions =~= scene.configuring(bound, seen));
        },
        SnapshotStageModel::Switch { candidates, turn } => {
            if turn < candidates.len() {
                assert(now.actions =~= scene.configuring(bound, seen) + scene.switches(turn + 1));
            } else {
                assert(now.actions =~= scene.before_sweep(bound, seen));
            }
        },
        SnapshotStageModel::Sweep => {
            let stale = scene.leaving(seen);
            assert(stale.take(0) =~= Seq::<Text>::empty());
            assert(now.actions =~= scene.before_sweep(bound, seen) + scene.removals(stale.take(0)));
        },
        SnapshotStageModel::Remove { stale, turn } => {
            if turn < stale.len() {
                let next = stale.take((turn + 1) as int);
                assert(next.drop_last() =~= stale.take(turn as int));
                assert(next.last() == stale[turn as int]);
                assert(now.actions =~= scene.before_sweep(bound, seen) + scene.removals(next));
            } else {
                assert(stale.take(turn as int) =~= stale);
            }
        },
        SnapshotStageModel::Done => {},
    }
}

/// A pass that is done has left nothing out. Every peer of the interface that
/// the full state does not know was removed, and is with no relay. All peers of
/// the full state that are put on the interface went on at once, or each by
/// itself; and every peer with local endpoints came to be switched.
pub proof fn law_finished_pass_is_complete(
    scene: SnapshotSceneModel,
    relays: RelaysModel,
    queue: Seq<RetryModel>,
    inputs: Seq<SnapshotInput>,
)
    requires
        scene.run(relays, queue, inputs).stage is Done,
    ensures
        ({
            let seen = scene.learned(relays, queue, inputs);
            let run = scene.run(relays, queue, inputs);
            let entries = scene.going(relays.bound, seen);
            &&& run.actions == scene.whole(relays.bound, seen)
            &&& forall|pubkey: Text| #[trigger]
                stale_of(seen.swept, scene.snapshot, scene.local_pubkey).contains(pubkey)
                    ==> run.actions.contains(removal_of(pubkey))
            &&& entries.len() > 0 ==> run.actions.contains(scene.restoring(entries))
            &&& entries.len() > 0 && !seen.at_once ==> forall|i: int|
                0 <= i < entries.len() ==> run.actions.contains(
                    scene.applying(#[trigger] entries[i], seen.alone),
                )
            &&& forall|i: int|
                0 <= i < scene.candidates().len() ==> run.actions.contains(
                    SnapshotActionModel::Switch {
                        pubkey: (#[trigger] scene.candidates()[i]).0,
                        endpoints: scene.candidates()[i].1,
                    },
                )
            &&& run.relays == without_all(relays, scene.leaving(seen))
            &&& run.queue == scene.queue_after(queue, relays.bound, seen)
        }),
{
    law_snapshot_pass_accounts_for_all(scene, relays, queue, inputs);
    let seen = scene.learned(relays, queue, inputs);
    let actions = scene.run(relays, queue, inputs).actions;
    let bound = relays.bound;
    let entries = scene.going(bound, seen);
    let stale = scene.leaving(seen);
    let first = scene.configuring(bound, seen);
    let sweep = scene.before_sweep(bound, seen);
    assert forall|pubkey: Text| #[trigger] stale.contains(pubkey) implies actions.contains(
        removal_of(pubkey),
    ) by {
        let i = choose|i: int| 0 <= i < stale.len() && stale[i] == pubkey;
        assert(actions[sweep.len() + i] == removal_of(pubkey));
    }
    if entries.len() > 0 {
        assert(actions[1] == scene.restoring(entries));
        if !seen.at_once {
            assert forall|i: int| 0 <= i < entries.len() implies actions.contains(
                scene.applying(#[trigger] entries[i], seen.alone),
            ) by {
                assert(scene.opening(bound, seen).len() == 2);
                assert(actions[3 + i] == scene.applying(entries[i], seen.alone));
            }
        }
    }
    assert forall|i: int| 0 <= i < scene.candidates().len() implies actions.contains(
        SnapshotActionModel::Switch {
            pubkey: (#[trigger] scene.candidates()[i]).0,
            endpoints: scene.candidates()[i].1,
        },
    ) by {
        assert(actions[first.len() + i] == scene.switches(scene.candidates().len())[i]);
    }
}

// ---------- what a pass comes to, peer by peer ----------

/// Once a pass is done, every other peer that the full state knows and that is
/// with no relay has gone on: with the configuration of all, which was added to
/// the interface, and, where that failed, by itself, as the full state
/// describes it.
pub proof fn law_every_known_peer_has_gone_on(
    scene: SnapshotSceneModel,
    relays: RelaysModel,
    queue: Seq<RetryModel>,
    inputs: Seq<SnapshotInput>,
    pubkey: Text,
)
    requires
        scene.run(relays, queue, inputs).stage is Done,
        scene.snapshot.peers.valid(),
        scene.snapshot.peers.has(pubkey),
        pubkey != scene.local_pubkey,
        !relays.bound.has(pubkey),
    ensures
        ({
            let seen = scene.learned(relays, queue, inputs);
            let actions = scene.run(relays, queue, inputs).actions;
            let entries = entries_of(
                scene.snapshot,
                scene.local_pubkey,
                relays.bound,
                seen.begun,
                scene.lan,
                seen.begun_secs,
                scene.snapshot.peers.keys.len(),
            );
            let peer = scene.snapshot.peers.map[pubkey];
            let endpoint = preserved_endpoint(
                seen.begun,
                pubkey,
                peer.endpoint,
                scene.lan,
                seen.begun_secs,
            );
            &&& actions.contains(
                SnapshotActionModel::Restore {
                    conf: joined(conf_lines(entries, scene.local_pubkey), "\n"@),
                },
            )
            &&& entries.contains((pubkey, PeerInfoModel { endpoint, ..peer }))
            &&& !seen.at_once ==> actions.contains(
                SnapshotActionModel::Apply {
                    plan: peer_plan(
                        scene.interface,
                        pubkey,
                        endpoint,
                        peer.allowed_ips,
                        peer.persistent_keepalive,
                        peer.preshared_key,
                        seen.alone,
                    ),
                },
            )
        }),
{
    let seen = scene.learned(relays, queue, inputs);
    let n = scene.snapshot.peers.keys.len();
    let entries = entries_of(
        scene.snapshot,
        scene.local_pubkey,
        relays.bound,
        seen.begun,
        scene.lan,
        seen.begun_secs,
        n,
    );
    assert(entries == scene.going(relays.bound, seen));
    law_every_peer_goes_on_once(
        scene.snapshot,
        scene.local_pubkey,
        relays.bound,
        seen.begun,
        scene.lan,
        seen.begun_secs,
        pubkey,
    );
    let i = choose|i: int| 0 <= i < entries.len() && (#[trigger] entries[i]).0 == pubkey;
    law_peer_goes_on_as_described(
        scene.snapshot,
        scene.local_pubkey,
        relays.bound,
        seen.begun,
        scene.lan,
        seen.begun_secs,
        n,
        i,
    );
    let peer = scene.snapshot.peers.map[pubkey];
    let endpoint = preserved_endpoint(
        seen.begun,
        pubkey,
        peer.endpoint,
        scene.lan,
        seen.begun_secs,
    );
    assert(entries[i] == (pubkey, PeerInfoModel { endpoint, ..peer }));
    law_finished_pass_is_complete(scene, relays, queue, inputs);
}

/// Once a pass is done, the peers that were on the interface when it looked,
/// and that the full state does not know, have been removed and are with no
/// relay; this node and the known peers have not been removed.
pub proof fn law_every_unknown_peer_is_gone(
    scene: SnapshotSceneModel,
    relays: RelaysModel,
    queue: Seq<RetryModel>,
    inputs: Seq<SnapshotInput>,
    pubkey: Text,
)
    requires
        scene.run(relays, queue, inputs).stage is Done,
        scene.snapshot.peers.valid(),
        scene.learned(relays, queue, inputs).swept.peers.valid(),
    ensures
        ({
            let swept = scene.learned(relays, queue, inputs).swept;
            let run = scene.run(relays, queue, inputs);
            &&& swept.peers.has(pubkey) && !scene.snapshot.peers.has(pubkey) && pubkey
                != scene.local_pubkey ==> run.actions.contains(
                SnapshotActionModel::RemovePeer { pubkey },
            ) && !run.relays.bound.has(pubkey)
            &&& scene.snapshot.peers.has(pubkey) || pubkey == scene.local_pubkey
                ==> !run.actions.contains(SnapshotActionModel::RemovePeer { pubkey })
            &&& scene.snapshot.peers.has(pubkey) ==> run.relays.bound.get(pubkey)
                == relays.bound.get(pubkey)
        }),
{
    let swept = scene.learned(relays, queue, inputs).swept;
    let run = scene.run(relays, queue, inputs);
    law_finished_pass_is_complete(scene, relays, queue, inputs);
    law_only_known_peers_stay(swept, scene.snapshot, scene.local_pubkey, pubkey);
    law_snapshot_pass_spares_known_peers(scene, relays, queue, inputs);
    let stale = stale_of(swept, scene.snapshot, scene.local_pubkey);
    if stale.contains(pubkey) {
        assert(run.actions.contains(removal_of(pubkey)));
        lemma_without_all(relays, stale, pubkey);
    }
    if run.actions.contains(removal_of(pubkey)) {
        let i = choose|i: int| 0 <= i < run.actions.len() && run.actions[i] == removal_of(pubkey);
        assert(run.actions[i] == removal_of(pubkey));
        assert(is_stale(scene.snapshot, scene.local_pubkey, pubkey));
    }
}

/// A peer that is gone is with no relay.
proof fn lemma_without_all(relays: RelaysModel, gone: Seq<Text>, pubkey: Text)
    requires
        gone.contains(pubkey),
    ensures
        !without_all(relays, gone).bound.has(pubkey),
    decreases gone.len(),
{
    let front = gone.drop_last();
    let before = without_all(relays, front);
    if gone.last() != pubkey {
        let i = choose|i: int| 0 <= i < gone.len() && gone[i] == pubkey;
        assert(front[i] == pubkey);
        lemma_without_all(relays, front, pubkey);
        law_forgotten(before, gone.last(), pubkey);
        assert(before.without(gone.last()).bound.get(pubkey) == before.bound.get(pubkey));
    }
}

/// Once a pass is done in which all peers went on at once, every peer whose key
/// the full state clears has gone on anew without one, unless it was known to
/// have none.
pub proof fn law_every_cleared_key_is_gone(
    scene: SnapshotSceneModel,
    relays: RelaysModel,
    queue: Seq<RetryModel>,
    inputs: Seq<SnapshotInput>,
    pubkey: Text,
)
    requires
        scene.run(relays, queue, inputs).stage is Done,
        scene.snapshot.peers.valid(),
        scene.learned(relays, queue, inputs).at_once,
        scene.snapshot.peers.has(pubkey),
        pubkey != scene.local_pubkey,
        !relays.bound.has(pubkey),
        scene.snapshot.peers.map[pubkey].preshared_key == Some(Seq::<char>::empty()),
        scene.snapshot.peers.map[pubkey].allowed_ips is Some,
        scene.snapshot.peers.map[pubkey].allowed_ips->0.len() > 0,
        scene.learned(relays, queue, inputs).with_psk matches Some(keyed) ==> keyed.contains(
            pubkey,
        ),
    ensures
        exists|state: WgStateModel, now_secs: u64|
            scene.run(relays, queue, inputs).actions.contains(
                SnapshotActionModel::Apply {
                    plan: #[trigger] psk_clear_plan(
                        scene.interface,
                        pubkey,
                        scene.snapshot.peers.map[pubkey],
                        state,
                        scene.lan,
                        now_secs,
                    ),
                },
            ),
{
    let seen = scene.learned(relays, queue, inputs);
    let bound = relays.bound;
    let entries = scene.going(bound, seen);
    let clear = scene.clearing(bound, seen);
    let n = scene.snapshot.peers.keys.len();
    law_snapshot_pass_accounts_for_all(scene, relays, queue, inputs);
    law_every_peer_goes_on_once(
        scene.snapshot,
        scene.local_pubkey,
        bound,
        seen.begun,
        scene.lan,
        seen.begun_secs,
        pubkey,
    );
    let i = choose|i: int| 0 <= i < entries.len() && (#[trigger] entries[i]).0 == pubkey;
    law_peer_goes_on_as_described(
        scene.snapshot,
        scene.local_pubkey,
        bound,
        seen.begun,
        scene.lan,
        seen.begun_secs,
        n,
        i,
    );
    law_empty_keys_are_cleared(entries, scene.local_pubkey, pubkey);
    let t = choose|t: int| 0 <= t < clear.len() && clear[t] == pubkey;
    assert(psk_clear_wanted(scene.snapshot, clear[t], seen.with_psk));
    lemma_clears(scene, clear, seen.with_psk, seen.cleared, t);
    let clears = scene.clears(clear, seen.with_psk, seen.cleared);
    let (state, secs) = seen.cleared[t];
    let action = scene.unkeying(pubkey, state, secs);
    let k = choose|k: int| 0 <= k < clears.len() && clears[k] == action;
    let actions = scene.run(relays, queue, inputs).actions;
    let head = scene.opening(bound, seen).push(SnapshotActionModel::ReadPsk);
    assert(scene.configuring(bound, seen) == head + clears);
    assert(scene.configuring(bound, seen)[head.len() + k] == action);
    assert(actions[head.len() + k] == action);
    assert(action == SnapshotActionModel::Apply {
        plan: psk_clear_plan(
            scene.interface,
            pubkey,
            scene.snapshot.peers.map[pubkey],
            state,
            scene.lan,
            secs,
        ),
    });
}

/// Every key whose turn came and that was to be cleared was.
proof fn lemma_clears(
    scene: SnapshotSceneModel,
    clear: Seq<Text>,
    with_psk: Option<Seq<Text>>,
    cleared: Seq<(WgStateModel, u64)>,
    t: int,
)
    requires
        0 <= t < cleared.len() <= clear.len(),
        psk_clear_wanted(scene.snapshot, clear[t], with_psk),
    ensures
        scene.clears(clear, with_psk, cleared).contains(
            scene.unkeying(clear[t], cleared[t].0, cleared[t].1),
        ),
    decreases cleared.len(),
{
    let front = cleared.drop_last();
    let before = scene.clears(clear, with_psk, front);
    let all = scene.clears(clear, with_psk, cleared);
    let action = scene.unkeying(clear[t], cleared[t].0, cleared[t].1);
    if t < front.len() {
        lemma_clears(scene, clear, with_psk, front, t);
        assert(front[t] == cleared[t]);
        let k = choose|k: int| 0 <= k < before.len() && before[k] == action;
        assert(all[k] == action);
    } else {
        assert(all[all.len() - 1] == action);
    }
}

/// What each step asks for. The pass begins with a state that may be a little
/// old; a key is cleared, and the peers that are gone are sought, in a fresh
/// one. Where all at once failed the peers go on one by one, each as the list
/// has it, and where it went well it is asked who has a key.
pub proof fn law_steps_of_a_pass(
    scene: SnapshotSceneModel,
    relays: RelaysModel,
    queue: Seq<RetryModel>,
    entries: Seq<(Text, PeerInfoModel)>,
    clear: Seq<Text>,
    candidates: Seq<(Text, Seq<Text>)>,
    stale: Seq<Text>,
    state: WgStateModel,
    turn: nat,
    reply: ReplyModel,
    now_secs: u64,
    now: u64,
)
    ensures
        ({
            let step = |stage: SnapshotStageModel|
                scene.step(relays, queue, stage, reply, now_secs, now);
            &&& step(SnapshotStageModel::Begin).action == Some(
                SnapshotActionModel::ReadState { fresh: false },
            )
            &&& step(SnapshotStageModel::Begin).stage is Configure
            &&& step(SnapshotStageModel::Restored { entries, clear }).action == Some(
                if reply.ok {
                    SnapshotActionModel::ReadPsk
                } else {
                    SnapshotActionModel::ReadState { fresh: false }
                },
            )
            &&& step(SnapshotStageModel::Restored { entries, clear }).stage == if reply.ok {
                SnapshotStageModel::Query { clear }
            } else {
                SnapshotStageModel::Retreat { entries }
            }
            &&& turn < entries.len() ==> step(
                SnapshotStageModel::Single { entries, state, turn },
            ).action == Some(
                SnapshotActionModel::Apply {
                    plan: peer_plan(
                        scene.interface,
                        entries[turn as int].0,
                        entries[turn as int].1.endpoint,
                        entries[turn as int].1.allowed_ips,
                        entries[turn as int].1.persistent_keepalive,
                        entries[turn as int].1.preshared_key,
                        state,
                    ),
                },
            )
            &&& turn < candidates.len() ==> step(
                SnapshotStageModel::Switch { candidates, turn },
            ).action == Some(
                SnapshotActionModel::Switch {
                    pubkey: candidates[turn as int].0,
                    endpoints: candidates[turn as int].1,
                },
            )
            &&& turn >= candidates.len() ==> step(
                SnapshotStageModel::Switch { candidates, turn },
            ).action == Some(SnapshotActionModel::ReadState { fresh: true })
            &&& turn < stale.len() ==> step(SnapshotStageModel::Remove { stale, turn }).action
                == Some(SnapshotActionModel::RemovePeer { pubkey: stale[turn as int] })
            &&& turn < stale.len() ==> step(SnapshotStageModel::Remove { stale, turn }).relays
                == relays.without(stale[turn as int])
            &&& turn < clear.len() && psk_clear_wanted(
                scene.snapshot,
                clear[turn as int],
                reply.with_psk,
            ) ==> step(
                SnapshotStageModel::Clear { clear, with_psk: reply.with_psk, turn },
            ).action == Some(SnapshotActionModel::ReadState { fresh: true })
        }),
        reply.state is None ==> reply.read_state().peers.keys.len() == 0,
        reply.state matches Some(read) ==> reply.read_state() == read,
{
}

/// A peer that could not go on by itself waits with all that it has.
pub proof fn law_failed_peer_waits_as_a_whole(pubkey: Text, peer: PeerInfoModel, now: u64)
    ensures
        ({
            let task = entry_task((pubkey, peer), now);
            &&& task.pubkey == pubkey
            &&& task.endpoint == peer.endpoint
            &&& task.allowed_ips == peer.allowed_ips
            &&& task.persistent_keepalive == peer.persistent_keepalive
            &&& task.preshared_key == peer.preshared_key
            &&& task.retry_count == 0
            &&& task.last_attempt == now
        }),
{
}

/// Once a pass is done, every other peer with local endpoints in the full state
/// has come to be switched to one of them.
pub proof fn law_every_local_endpoint_is_offered(
    scene: SnapshotSceneModel,
    relays: RelaysModel,
    queue: Seq<RetryModel>,
    inputs: Seq<SnapshotInput>,
    pubkey: Text,
    endpoints: Seq<Text>,
)
    requires
        scene.run(relays, queue, inputs).stage is Done,
        scene.snapshot.peers.valid(),
        scene.snapshot.peers.has(pubkey),
        pubkey != scene.local_pubkey,
        scene.snapshot.peers.map[pubkey].local_ips == Some(endpoints),
        endpoints.len() > 0,
    ensures
        scene.run(relays, queue, inputs).actions.contains(
            SnapshotActionModel::Switch { pubkey, endpoints },
        ),
{
    law_finished_pass_is_complete(scene, relays, queue, inputs);
    law_local_endpoints_make_a_candidate(
        scene.snapshot,
        scene.local_pubkey,
        pubkey,
        endpoints,
    );
    let candidates = scene.candidates();
    let i = choose|i: int| 0 <= i < candidates.len() && candidates[i] == (pubkey, endpoints);
    assert(scene.candidates()[i] == (pubkey, endpoints));
}

} // verus!
