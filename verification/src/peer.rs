//! Peers as the server describes them, and how they are put on the interface.
use vstd::prelude::*;

use crate::list::{copied, put};
use crate::state::{copied_option, first_tunnel_ip, tunnel_ip, WgState, WgStateModel};
use crate::table::Duplicate;
use crate::text::{before_first, concat2, decimal, decimal_text, join, joined, owned, Text};

verus! {

/// The seconds between keepalive packets for a peer that comes without a number.
pub const DEFAULT_KEEPALIVE: u16 = 25;

/// A peer as the server describes it. Of the pre-shared key, an empty string
/// says that it is to be cleared, and its absence that it stays as it is.
pub struct PeerInfo {
    pub endpoint: Option<String>,
    pub allowed_ips: Option<Vec<String>>,
    pub persistent_keepalive: Option<u16>,
    pub preshared_key: Option<String>,
    pub local_ips: Option<Vec<String>>,
}

/// What a `PeerInfo` says.
#[verifier::ext_equal]
pub struct PeerInfoModel {
    pub endpoint: Option<Text>,
    pub allowed_ips: Option<Seq<Text>>,
    pub persistent_keepalive: Option<u16>,
    pub preshared_key: Option<Text>,
    pub local_ips: Option<Seq<Text>>,
}

impl DeepView for PeerInfo {
    type V = PeerInfoModel;

    open spec fn deep_view(&self) -> PeerInfoModel {
        PeerInfoModel {
            endpoint: self.endpoint.deep_view(),
            allowed_ips: self.allowed_ips.deep_view(),
            persistent_keepalive: self.persistent_keepalive,
            preshared_key: self.preshared_key.deep_view(),
            local_ips: self.local_ips.deep_view(),
        }
    }
}

impl Duplicate for PeerInfo {
    fn duplicate(&self) -> (copy: Self) {
        PeerInfo {
            endpoint: copied_option(&self.endpoint),
            allowed_ips: copied_list(&self.allowed_ips),
            persistent_keepalive: self.persistent_keepalive,
            preshared_key: copied_option(&self.preshared_key),
            local_ips: copied_list(&self.local_ips),
        }
    }
}

/// The strings, copied, where there are any.
pub fn copied_list(v: &Option<Vec<String>>) -> (copy: Option<Vec<String>>)
    ensures
        copy.deep_view() == v.deep_view(),
{
    match v {
        Some(list) => Some(copied(list)),
        None => None,
    }
}

// ---------- the pre-shared key in a description ----------

/// What the field of the pre-shared key holds in a description.
pub enum PskField {
    Missing,
    Null,
    Text(String),
    Other,
}

/// The field holds neither a string nor null.
pub struct NotAPsk;

/// The pre-shared key that a field stands for: null asks for the key to be
/// cleared, which an empty string says from here on, and a missing field lets
/// it be as it is.
pub fn deserialize_psk(field: PskField) -> (psk: Result<Option<String>, NotAPsk>)
    ensures
        match field {
            PskField::Missing => psk == Ok::<Option<String>, NotAPsk>(None),
            PskField::Null => psk matches Ok(Some(key)) && key@ == ""@,
            PskField::Text(text) => psk == Ok::<Option<String>, NotAPsk>(Some(text)),
            PskField::Other => psk is Err,
        },
{
    match field {
        PskField::Missing => Ok(None),
        PskField::Null => {
            proof {
                reveal_strlit("");
            }
            let cleared = String::new();
            assert(cleared@ == ""@);
            Ok(Some(cleared))
        },
        PskField::Text(text) => Ok(Some(text)),
        PskField::Other => Err(NotAPsk),
    }
}

/// The key is to be cleared.
pub open spec fn clears(psk: Option<Text>) -> bool {
    psk matches Some(key) && key.len() == 0
}

// ---------- one peer ----------

/// What has to be set for a peer.
pub struct PeerUpdate {
    pub interface: String,
    pub pubkey: String,
    pub preshared_key: Option<String>,
    pub keepalive: Option<u16>,
    pub endpoint: Option<String>,
    pub allowed_ips: Vec<String>,
    pub handshake: Option<String>,
}

/// What a `PeerUpdate` says.
#[verifier::ext_equal]
pub struct PeerUpdateModel {
    pub interface: Text,
    pub pubkey: Text,
    pub preshared_key: Option<Text>,
    pub keepalive: Option<u16>,
    pub endpoint: Option<Text>,
    pub allowed_ips: Seq<Text>,
    pub handshake: Option<Text>,
}

impl DeepView for PeerUpdate {
    type V = PeerUpdateModel;

    open spec fn deep_view(&self) -> PeerUpdateModel {
        PeerUpdateModel {
            interface: self.interface@,
            pubkey: self.pubkey@,
            preshared_key: self.preshared_key.deep_view(),
            keepalive: self.keepalive,
            endpoint: self.endpoint.deep_view(),
            allowed_ips: self.allowed_ips.deep_view(),
            handshake: self.handshake.deep_view(),
        }
    }
}

/// How a peer is put on the interface: first it may have to be removed, with
/// those arguments of `wg`, and that may be all that can be done of it. Where
/// nothing is set, the peer counts as not added.
pub struct PeerPlan {
    pub removal: Option<Vec<String>>,
    pub update: Option<PeerUpdate>,
}

/// What a `PeerPlan` says.
#[verifier::ext_equal]
pub struct PeerPlanModel {
    pub removal: Option<Seq<Text>>,
    pub update: Option<PeerUpdateModel>,
}

impl DeepView for PeerPlan {
    type V = PeerPlanModel;

    open spec fn deep_view(&self) -> PeerPlanModel {
        PeerPlanModel { removal: self.removal.deep_view(), update: self.update.deep_view() }
    }
}

/// The peer is there, and its key is to be cleared: that takes its removal.
pub open spec fn replaced(state: WgStateModel, pubkey: Text, psk: Option<Text>) -> bool {
    state.peers.has(pubkey) && clears(psk)
}

/// The peer is added: it is not there, or is removed first.
pub open spec fn added(state: WgStateModel, pubkey: Text, psk: Option<Text>) -> bool {
    !state.peers.has(pubkey) || clears(psk)
}

/// The addresses that the peer gets: those of the description, and for a peer
/// that is added without any, those it had.
pub open spec fn chosen_ips(
    state: WgStateModel,
    pubkey: Text,
    allowed_ips: Option<Seq<Text>>,
    psk: Option<Text>,
) -> Seq<Text> {
    let described = match allowed_ips {
        Some(ips) => ips,
        None => Seq::empty(),
    };
    if described.len() == 0 && replaced(state, pubkey, psk) {
        state.peers.map[pubkey].allowed_ips
    } else {
        described
    }
}

/// How a peer is put on the interface. Without addresses it is not.
pub open spec fn peer_plan(
    interface: Text,
    pubkey: Text,
    endpoint: Option<Text>,
    allowed_ips: Option<Seq<Text>>,
    keepalive: Option<u16>,
    psk: Option<Text>,
    state: WgStateModel,
) -> PeerPlanModel {
    let ips = chosen_ips(state, pubkey, allowed_ips, psk);
    PeerPlanModel {
        removal: if replaced(state, pubkey, psk) {
            Some(remove_args(interface, pubkey))
        } else {
            None
        },
        update: if ips.len() == 0 {
            None
        } else {
            Some(
                PeerUpdateModel {
                    interface,
                    pubkey,
                    preshared_key: if clears(psk) {
                        None
                    } else {
                        psk
                    },
                    keepalive: if added(state, pubkey, psk) && keepalive is None {
                        Some(DEFAULT_KEEPALIVE)
                    } else {
                        keepalive
                    },
                    endpoint,
                    allowed_ips: ips,
                    handshake: if added(state, pubkey, psk) {
                        tunnel_ip(ips)
                    } else {
                        None
                    },
                },
            )
        },
    }
}

/// How a peer is put on the interface.
pub fn add_or_update_peer(
    interface: &str,
    pubkey: &str,
    endpoint: &Option<String>,
    allowed_ips: &Option<Vec<String>>,
    keepalive_opt: Option<u16>,
    preshared_key: &Option<String>,
    state: &WgState,
) -> (plan: PeerPlan)
    ensures
        plan.deep_view() == peer_plan(
            interface@,
            pubkey@,
            endpoint.deep_view(),
            allowed_ips.deep_view(),
            keepalive_opt,
            preshared_key.deep_view(),
            state.deep_view(),
        ),
{
    let was_there = state.peers.contains_key(pubkey);
    let clear = match preshared_key {
        Some(key) => key.as_str().is_empty(),
        None => false,
    };
    let replace = was_there && clear;
    let removal = if replace {
        Some(remove_peer(interface, pubkey))
    } else {
        None
    };
    let is_new = !was_there || clear;
    let described = match allowed_ips {
        Some(ips) => copied(ips),
        None => Vec::new(),
    };
    assert(described.deep_view() == match allowed_ips.deep_view() {
        Some(ips) => ips,
        None => Seq::empty(),
    });
    assert(described@.len() == described.deep_view().len());
    let ips = if described.len() == 0 && replace {
        match state.peers.get(pubkey) {
            Some(peer) => copied(&peer.allowed_ips),
            None => Vec::new(),
        }
    } else {
        described
    };
    assert(ips@.len() == ips.deep_view().len());
    if ips.len() == 0 {
        return PeerPlan { removal, update: None };
    }
    let keepalive = if is_new && keepalive_opt.is_none() {
        Some(DEFAULT_KEEPALIVE)
    } else {
        keepalive_opt
    };
    let handshake = if is_new {
        first_tunnel_ip(&ips)
    } else {
        None
    };
    PeerPlan {
        removal,
        update: Some(
            PeerUpdate {
                interface: interface.to_owned(),
                pubkey: pubkey.to_owned(),
                preshared_key: if clear {
                    None
                } else {
                    copied_option(preshared_key)
                },
                keepalive,
                endpoint: copied_option(endpoint),
                allowed_ips: ips,
                handshake,
            },
        ),
    }
}

/// A flag and its value, where there is one.
pub open spec fn flagged(flag: Text, value: Option<Text>) -> Seq<Text> {
    match value {
        Some(v) => seq![flag, v],
        None => Seq::empty(),
    }
}

/// A number in decimal notation, where there is one.
pub open spec fn decimal_option(n: Option<u16>) -> Option<Text> {
    match n {
        Some(v) => Some(decimal(v as nat)),
        None => None,
    }
}

impl PeerUpdateModel {
    /// The arguments of `wg` for the update, with the pre-shared key in a file.
    pub open spec fn args(self, psk_path: Option<Text>) -> Seq<Text> {
        seq!["set"@, self.interface, "peer"@, self.pubkey] + flagged("preshared-key"@, psk_path)
            + flagged("persistent-keepalive"@, decimal_option(self.keepalive)) + flagged(
            "endpoint"@,
            self.endpoint,
        ) + seq!["allowed-ips"@, joined(self.allowed_ips, ","@)]
    }
}

/// Adds a flag and its value, where there is one.
fn put_flag(args: &mut Vec<String>, flag: &str, value: &Option<String>)
    ensures
        final(args).deep_view() == old(args).deep_view() + flagged(flag@, value.deep_view()),
{
    match value {
        Some(v) => {
            put(args, flag.to_owned());
            put(args, v.clone());
        },
        None => {},
    }
}

impl PeerUpdate {
    /// The arguments of `wg` for the update. Where there is a pre-shared key,
    /// `psk_path` is the file that holds it.
    pub fn args(&self, psk_path: &Option<String>) -> (args: Vec<String>)
        ensures
            args.deep_view() == self.deep_view().args(psk_path.deep_view()),
    {
        let mut args = owned(vec!["set", self.interface.as_str(), "peer", self.pubkey.as_str()]);
        put_flag(&mut args, "preshared-key", psk_path);
        let keepalive = match self.keepalive {
            Some(n) => Some(decimal_text(n as u64)),
            None => None,
        };
        put_flag(&mut args, "persistent-keepalive", &keepalive);
        put_flag(&mut args, "endpoint", &self.endpoint);
        put(&mut args, "allowed-ips".to_owned());
        put(&mut args, join(&self.allowed_ips, ","));
        args
    }
}

/// The arguments of `wg` that remove a peer.
pub open spec fn remove_args(interface: Text, pubkey: Text) -> Seq<Text> {
    seq!["set"@, interface, "peer"@, pubkey, "remove"@]
}

/// The arguments of `wg` that remove a peer.
pub fn remove_peer(interface: &str, pubkey: &str) -> (args: Vec<String>)
    ensures
        args.deep_view() == remove_args(interface@, pubkey@),
{
    owned(vec!["set", interface, "peer", pubkey, "remove"])
}

// ---------- many peers at once ----------

/// A line of a configuration, where there is a value for it.
pub open spec fn setting(name: Text, value: Option<Text>) -> Seq<Text> {
    match value {
        Some(v) => seq![name + v],
        None => Seq::empty(),
    }
}

/// The pre-shared key to write down: none where it is absent or to be cleared.
pub open spec fn written_psk(psk: Option<Text>) -> Option<Text> {
    if clears(psk) {
        None
    } else {
        psk
    }
}

/// The addresses to write down: none where the list is absent or empty.
pub open spec fn written_ips(ips: Option<Seq<Text>>) -> Option<Text> {
    match ips {
        Some(list) => if list.len() > 0 {
            Some(joined(list, ", "@))
        } else {
            None
        },
        None => None,
    }
}

/// The section of a configuration for one peer.
pub open spec fn peer_section(pubkey: Text, peer: PeerInfoModel) -> Seq<Text> {
    seq!["[Peer]"@, "PublicKey = "@ + pubkey] + setting(
        "PresharedKey = "@,
        written_psk(peer.preshared_key),
    ) + setting("PersistentKeepalive = "@, decimal_option(peer.persistent_keepalive)) + setting(
        "Endpoint = "@,
        peer.endpoint,
    ) + setting("AllowedIPs = "@, written_ips(peer.allowed_ips)) + seq![""@]
}

/// The lines of a configuration for some peers, without the machine itself.
pub open spec fn conf_lines(config: Seq<(Text, PeerInfoModel)>, local_pubkey: Text) -> Seq<Text>
    decreases config.len(),
{
    if config.len() == 0 {
        seq!["[Interface]"@, ""@]
    } else {
        let before = conf_lines(config.drop_last(), local_pubkey);
        let (pubkey, peer) = config.last();
        if pubkey == local_pubkey {
            before
        } else {
            before + peer_section(pubkey, peer)
        }
    }
}

/// The peers whose pre-shared key is to be cleared, without the machine itself.
pub open spec fn clear_list(config: Seq<(Text, PeerInfoModel)>, local_pubkey: Text) -> Seq<Text>
    decreases config.len(),
{
    if config.len() == 0 {
        Seq::empty()
    } else {
        let before = clear_list(config.drop_last(), local_pubkey);
        let (pubkey, peer) = config.last();
        if pubkey != local_pubkey && clears(peer.preshared_key) {
            before.push(pubkey)
        } else {
            before
        }
    }
}

/// A configuration for `wg addconf`, and the peers whose pre-shared key it
/// cannot clear.
pub struct BatchRestore {
    pub conf: String,
    pub clear_psk_peers: Vec<String>,
}

/// Adds a line, where there is a value for it.
fn put_setting(rows: &mut Vec<String>, name: &str, value: &Option<String>)
    ensures
        final(rows).deep_view() == old(rows).deep_view() + setting(name@, value.deep_view()),
{
    match value {
        Some(v) => put(rows, concat2(name, v.as_str())),
        None => {},
    }
}

/// Adds the section for one peer.
fn put_section(rows: &mut Vec<String>, pubkey: &str, peer: &PeerInfo)
    ensures
        final(rows).deep_view() == old(rows).deep_view() + peer_section(pubkey@, peer.deep_view()),
{
    put(rows, "[Peer]".to_owned());
    put(rows, concat2("PublicKey = ", pubkey));
    let psk = match &peer.preshared_key {
        Some(key) => {
            if key.as_str().is_empty() {
                None
            } else {
                Some(key.clone())
            }
        },
        None => None,
    };
    put_setting(rows, "PresharedKey = ", &psk);
    let keepalive = match peer.persistent_keepalive {
        Some(n) => Some(decimal_text(n as u64)),
        None => None,
    };
    put_setting(rows, "PersistentKeepalive = ", &keepalive);
    put_setting(rows, "Endpoint = ", &peer.endpoint);
    let ips = match &peer.allowed_ips {
        Some(list) => {
            assert(list@.len() == list.deep_view().len());
            if list.len() > 0 {
                Some(join(list, ", "))
            } else {
                None
            }
        },
        None => None,
    };
    put_setting(rows, "AllowedIPs = ", &ips);
    put(rows, "".to_owned());
}

/// The configuration that puts all the peers on the interface at once, or
/// nothing where there is no peer.
pub fn batch_restore_peers(config: &[(String, PeerInfo)], local_pubkey: &str) -> (batch: Option<
    BatchRestore,
>)
    ensures
        match batch {
            Some(b) => {
                &&& config.deep_view().len() > 0
                &&& b.conf@ == joined(conf_lines(config.deep_view(), local_pubkey@), "\n"@)
                &&& b.clear_psk_peers.deep_view() == clear_list(config.deep_view(), local_pubkey@)
            },
            None => config.deep_view().len() == 0,
        },
{
    let ghost model = config.deep_view();
    if config.len() == 0 {
        return None;
    }
    let mut rows = owned(vec!["[Interface]", ""]);
    let mut clear_psk_peers: Vec<String> = Vec::new();
    let mut i: usize = 0;
    assert(model.take(0) == Seq::<(Text, PeerInfoModel)>::empty());
    while i < config.len()
        invariant
            i <= config@.len(),
            model == config.deep_view(),
            rows.deep_view() == conf_lines(model.take(i as int), local_pubkey@),
            clear_psk_peers.deep_view() == clear_list(model.take(i as int), local_pubkey@),
        decreases config@.len() - i,
    {
        assert(model.take(i + 1).drop_last() == model.take(i as int));
        assert(model[i as int] == config@[i as int].deep_view());
        let (pubkey, peer) = &config[i];
        if !pubkey.as_str().eq(local_pubkey) {
            put_section(&mut rows, pubkey.as_str(), peer);
            let clear = match &peer.preshared_key {
                Some(key) => key.as_str().is_empty(),
                None => false,
            };
            if clear {
                put(&mut clear_psk_peers, pubkey.clone());
            }
        }
        i = i + 1;
    }
    assert(model.take(i as int) == model);
    Some(BatchRestore { conf: join(&rows, "\n"), clear_psk_peers })
}

// ---------- what holds of a peer ----------

/// To clear the key of a peer that is there, the peer is removed first, and
/// then set up without a key.
pub proof fn law_cleared_key_takes_removal(
    interface: Text,
    pubkey: Text,
    endpoint: Option<Text>,
    allowed_ips: Option<Seq<Text>>,
    keepalive: Option<u16>,
    psk: Option<Text>,
    state: WgStateModel,
)
    ensures
        ({
            let plan = peer_plan(
                interface,
                pubkey,
                endpoint,
                allowed_ips,
                keepalive,
                psk,
                state,
            );
            &&& plan.removal == if state.peers.has(pubkey) && clears(psk) {
                Some(remove_args(interface, pubkey))
            } else {
                None
            }
            &&& clears(psk) ==> (plan.update matches Some(update) ==> update.preshared_key is None)
        }),
{
}

/// Without a key in the description a peer that is there is neither removed
/// nor gets another key: it keeps the one it has.
pub proof fn law_absent_key_is_kept(
    interface: Text,
    pubkey: Text,
    endpoint: Option<Text>,
    allowed_ips: Option<Seq<Text>>,
    keepalive: Option<u16>,
    state: WgStateModel,
)
    ensures
        ({
            let plan = peer_plan(
                interface,
                pubkey,
                endpoint,
                allowed_ips,
                keepalive,
                None,
                state,
            );
            &&& plan.removal is None
            &&& plan.update matches Some(update) ==> update.preshared_key is None
        }),
        written_psk(None) is None,
{
}

/// No peer is set up without addresses, and one that is added always keeps
/// the connection alive.
pub proof fn law_every_new_peer_is_complete(
    interface: Text,
    pubkey: Text,
    endpoint: Option<Text>,
    allowed_ips: Option<Seq<Text>>,
    keepalive: Option<u16>,
    psk: Option<Text>,
    state: WgStateModel,
)
    ensures
        peer_plan(interface, pubkey, endpoint, allowed_ips, keepalive, psk, state).update
            matches Some(update) ==> {
            &&& update.allowed_ips.len() > 0
            &&& added(state, pubkey, psk) ==> update.keepalive is Some && update.handshake is Some
        },
{
}

/// A pre-shared key that is not empty always comes with the peer, whether the
/// peer is new or there already, and needs no removal.
pub proof fn law_key_comes_with_the_peer(
    interface: Text,
    pubkey: Text,
    endpoint: Option<Text>,
    allowed_ips: Option<Seq<Text>>,
    keepalive: Option<u16>,
    key: Text,
    state: WgStateModel,
)
    requires
        key.len() > 0,
    ensures
        ({
            let plan = peer_plan(
                interface,
                pubkey,
                endpoint,
                allowed_ips,
                keepalive,
                Some(key),
                state,
            );
            &&& plan.removal is None
            &&& plan.update matches Some(update) ==> update.preshared_key == Some(key)
        }),
        written_psk(Some(key)) == Some(key),
{
}

/// A peer with addresses in its description is always set up, with exactly
/// these, the endpoint of the description and no other, under its own key and
/// on that interface: in every state of the interface, and whatever becomes of
/// the pre-shared key.
pub proof fn law_described_peer_is_set_up(
    interface: Text,
    pubkey: Text,
    endpoint: Option<Text>,
    ips: Seq<Text>,
    keepalive: Option<u16>,
    psk: Option<Text>,
    state: WgStateModel,
)
    requires
        ips.len() > 0,
    ensures
        peer_plan(interface, pubkey, endpoint, Some(ips), keepalive, psk, state).update
            matches Some(update) && {
            &&& update.interface == interface
            &&& update.pubkey == pubkey
            &&& update.endpoint == endpoint
            &&& update.allowed_ips == ips
            &&& keepalive is Some ==> update.keepalive == keepalive
        },
{
}

/// A peer without addresses in its description is set up only to clear its
/// key, and keeps the addresses that it has; in no other case is anything set.
pub proof fn law_undescribed_addresses_stay(
    interface: Text,
    pubkey: Text,
    endpoint: Option<Text>,
    allowed_ips: Option<Seq<Text>>,
    keepalive: Option<u16>,
    psk: Option<Text>,
    state: WgStateModel,
)
    requires
        allowed_ips matches Some(ips) ==> ips.len() == 0,
    ensures
        ({
            let plan = peer_plan(
                interface,
                pubkey,
                endpoint,
                allowed_ips,
                keepalive,
                psk,
                state,
            );
            if state.peers.has(pubkey) && psk == Some(Seq::<char>::empty()) {
                let had = state.peers.map[pubkey].allowed_ips;
                &&& plan.update is Some <==> had.len() > 0
                &&& plan.update matches Some(update) ==> update.allowed_ips == had
                    && update.endpoint == endpoint
            } else {
                plan.update is None
            }
        }),
{
    if let Some(key) = psk {
        assert(key.len() == 0 ==> key == Seq::<char>::empty());
    }
}

/// A peer that is new, or that goes on anew without its key, is kept alive
/// every 25 seconds unless the description says otherwise, and is poked at the
/// host of its first address. One that stays there gets neither.
pub proof fn law_only_new_peers_are_poked(
    interface: Text,
    pubkey: Text,
    endpoint: Option<Text>,
    allowed_ips: Option<Seq<Text>>,
    keepalive: Option<u16>,
    psk: Option<Text>,
    state: WgStateModel,
)
    ensures
        ({
            let plan = peer_plan(
                interface,
                pubkey,
                endpoint,
                allowed_ips,
                keepalive,
                psk,
                state,
            );
            let stays = state.peers.has(pubkey) && plan.removal is None;
            plan.update matches Some(update) ==> {
                &&& keepalive is Some ==> update.keepalive == keepalive
                &&& stays ==> update.keepalive == keepalive && update.handshake is None
                &&& !stays && keepalive is None ==> update.keepalive == Some(25u16)
                &&& !stays ==> update.handshake == Some(before_first(update.allowed_ips[0], '/'))
            }
        }),
{
}

/// The peer is removed first exactly where it is there and the key is to be
/// cleared, and then comes back without a key.
pub proof fn law_removal_only_clears_keys(
    interface: Text,
    pubkey: Text,
    endpoint: Option<Text>,
    allowed_ips: Option<Seq<Text>>,
    keepalive: Option<u16>,
    psk: Option<Text>,
    state: WgStateModel,
)
    ensures
        ({
            let plan = peer_plan(
                interface,
                pubkey,
                endpoint,
                allowed_ips,
                keepalive,
                psk,
                state,
            );
            &&& plan.removal is Some <==> state.peers.has(pubkey) && psk == Some(
                Seq::<char>::empty(),
            )
            &&& plan.removal matches Some(args) ==> args == seq![
                "set"@,
                interface,
                "peer"@,
                pubkey,
                "remove"@,
            ]
            &&& psk is None || psk == Some(Seq::<char>::empty()) ==> (plan.update matches Some(
                update,
            ) ==> update.preshared_key is None)
        }),
{
    if let Some(key) = psk {
        assert(key.len() == 0 ==> key == Seq::<char>::empty());
    }
}

/// How a peer is put on the interface does not depend on the other peers there,
/// nor on the port.
pub proof fn law_other_peers_do_not_matter(
    interface: Text,
    pubkey: Text,
    endpoint: Option<Text>,
    allowed_ips: Option<Seq<Text>>,
    keepalive: Option<u16>,
    psk: Option<Text>,
    state: WgStateModel,
    other: WgStateModel,
)
    requires
        state.peers.get(pubkey) == other.peers.get(pubkey),
    ensures
        peer_plan(interface, pubkey, endpoint, allowed_ips, keepalive, psk, state) == peer_plan(
            interface,
            pubkey,
            endpoint,
            allowed_ips,
            keepalive,
            psk,
            other,
        ),
{
}

/// The flag stands among the arguments with that value behind it.
pub open spec fn flag_is(args: Seq<Text>, flag: Text, value: Text) -> bool {
    exists|i: int| 4 <= i < args.len() - 1 && #[trigger] args[i] == flag && args[i + 1] == value
}

/// The command for an update sets all that the update has, each under its
/// flag, and its addresses; and nothing else.
pub proof fn law_command_sets_all(update: PeerUpdateModel, psk_path: Option<Text>)
    ensures
        ({
            let args = update.args(psk_path);
            let flags = (if psk_path is Some {
                2int
            } else {
                0
            }) + (if update.keepalive is Some {
                2int
            } else {
                0
            }) + (if update.endpoint is Some {
                2int
            } else {
                0
            });
            &&& args.len() == 6 + flags
            &&& args.take(4) == seq!["set"@, update.interface, "peer"@, update.pubkey]
            &&& psk_path matches Some(path) ==> flag_is(args, "preshared-key"@, path)
            &&& update.keepalive matches Some(n) ==> flag_is(
                args,
                "persistent-keepalive"@,
                decimal(n as nat),
            )
            &&& update.endpoint matches Some(endpoint) ==> flag_is(args, "endpoint"@, endpoint)
            &&& flag_is(args, "allowed-ips"@, joined(update.allowed_ips, ","@))
        }),
{
    let args = update.args(psk_path);
    let a: int = if psk_path is Some {
        6
    } else {
        4
    };
    let b: int = if update.keepalive is Some {
        a + 2
    } else {
        a
    };
    let c: int = if update.endpoint is Some {
        b + 2
    } else {
        b
    };
    assert(args.take(4) == seq!["set"@, update.interface, "peer"@, update.pubkey]);
    if let Some(path) = psk_path {
        assert(args[4] == "preshared-key"@ && args[4int + 1] == path);
    }
    if let Some(n) = update.keepalive {
        assert(args[a] == "persistent-keepalive"@ && args[a + 1] == decimal(n as nat));
    }
    if let Some(endpoint) = update.endpoint {
        assert(args[b] == "endpoint"@ && args[b + 1] == endpoint);
    }
    assert(args[c] == "allowed-ips"@ && args[c + 1] == joined(update.allowed_ips, ","@));
}

/// The section of a peer begins with its key, and says of the peer all that
/// the description says and nothing else: the pre-shared key unless it is
/// missing or empty, the keepalive, the endpoint, and the addresses.
pub proof fn law_section_says_all(pubkey: Text, peer: PeerInfoModel, value: Text)
    ensures
        ({
            let section = peer_section(pubkey, peer);
            &&& section[0] == "[Peer]"@
            &&& section[1] == "PublicKey = "@ + pubkey
            &&& section.last() == ""@
            &&& section.contains("PresharedKey = "@ + value) <==> peer.preshared_key == Some(value)
                && value.len() > 0
            &&& section.contains("PersistentKeepalive = "@ + value) <==> {
                &&& peer.persistent_keepalive matches Some(n)
                &&& value == decimal(n as nat)
            }
            &&& section.contains("Endpoint = "@ + value) <==> peer.endpoint == Some(value)
            &&& section.contains("AllowedIPs = "@ + value) <==> {
                &&& peer.allowed_ips matches Some(ips)
                &&& ips.len() > 0
                &&& value == joined(ips, ", "@)
            }
        }),
{
    let p = "PresharedKey = "@ + value;
    let k = "PersistentKeepalive = "@ + value;
    let e = "Endpoint = "@ + value;
    let i = "AllowedIPs = "@ + value;
    lemma_section_holds(pubkey, peer, p);
    lemma_section_holds(pubkey, peer, k);
    lemma_section_holds(pubkey, peer, e);
    lemma_section_holds(pubkey, peer, i);
    lemma_initials(pubkey, value);
    lemma_named("PresharedKey = "@, value, written_psk(peer.preshared_key));
    lemma_named(
        "PersistentKeepalive = "@,
        value,
        decimal_option(peer.persistent_keepalive),
    );
    lemma_named("Endpoint = "@, value, peer.endpoint);
    lemma_named("AllowedIPs = "@, value, written_ips(peer.allowed_ips));
    lemma_begins_as_named("PresharedKey = "@, written_psk(peer.preshared_key));
    lemma_begins_as_named(
        "PersistentKeepalive = "@,
        decimal_option(peer.persistent_keepalive),
    );
    lemma_begins_as_named("Endpoint = "@, peer.endpoint);
    lemma_begins_as_named("AllowedIPs = "@, written_ips(peer.allowed_ips));
    let section = peer_section(pubkey, peer);
    assert(section.contains(p) <==> written_psk(peer.preshared_key) == Some(value));
    assert(section.contains(k) <==> decimal_option(peer.persistent_keepalive) == Some(value));
    assert(section.contains(e) <==> peer.endpoint == Some(value));
    assert(section.contains(i) <==> written_ips(peer.allowed_ips) == Some(value));
}

/// The lines of a section.
proof fn lemma_section_holds(pubkey: Text, peer: PeerInfoModel, line: Text)
    ensures
        peer_section(pubkey, peer).contains(line) <==> {
            ||| line == "[Peer]"@
            ||| line == "PublicKey = "@ + pubkey
            ||| setting("PresharedKey = "@, written_psk(peer.preshared_key)).contains(line)
            ||| setting(
                "PersistentKeepalive = "@,
                decimal_option(peer.persistent_keepalive),
            ).contains(line)
            ||| setting("Endpoint = "@, peer.endpoint).contains(line)
            ||| setting("AllowedIPs = "@, written_ips(peer.allowed_ips)).contains(line)
            ||| line == ""@
        },
{
    let head = seq!["[Peer]"@, "PublicKey = "@ + pubkey];
    let psk = setting("PresharedKey = "@, written_psk(peer.preshared_key));
    let keepalive = setting(
        "PersistentKeepalive = "@,
        decimal_option(peer.persistent_keepalive),
    );
    let endpoint = setting("Endpoint = "@, peer.endpoint);
    let ips = setting("AllowedIPs = "@, written_ips(peer.allowed_ips));
    let end = seq![""@];
    lemma_either_part(head, psk, line);
    lemma_either_part(head + psk, keepalive, line);
    lemma_either_part(head + psk + keepalive, endpoint, line);
    lemma_either_part(head + psk + keepalive + endpoint, ips, line);
    lemma_either_part(head + psk + keepalive + endpoint + ips, end, line);
    assert(head[0] == "[Peer]"@ && head[1] == "PublicKey = "@ + pubkey);
    assert(head.contains(line) <==> line == "[Peer]"@ || line == "PublicKey = "@ + pubkey);
    assert(end[0] == ""@);
    assert(end.contains(line) <==> line == ""@);
}

/// How the lines of a section begin.
proof fn lemma_initials(pubkey: Text, value: Text)
    ensures
        "[Peer]"@[0] == '[',
        ""@.len() == 0,
        ("PublicKey = "@ + pubkey)[0] == 'P' && ("PublicKey = "@ + pubkey)[1] == 'u',
        "PresharedKey = "@.len() > 2 && "PresharedKey = "@[0] == 'P' && "PresharedKey = "@[1] == 'r',
        "PersistentKeepalive = "@.len() > 2 && "PersistentKeepalive = "@[0] == 'P'
            && "PersistentKeepalive = "@[1] == 'e',
        "Endpoint = "@.len() > 2 && "Endpoint = "@[0] == 'E',
        "AllowedIPs = "@.len() > 2 && "AllowedIPs = "@[0] == 'A',
        ("PresharedKey = "@ + value)[0] == 'P' && ("PresharedKey = "@ + value)[1] == 'r',
        ("PersistentKeepalive = "@ + value)[0] == 'P' && ("PersistentKeepalive = "@ + value)[1]
            == 'e',
        ("Endpoint = "@ + value)[0] == 'E',
        ("AllowedIPs = "@ + value)[0] == 'A',
        ("PresharedKey = "@ + value).len() > 0,
        ("PersistentKeepalive = "@ + value).len() > 0,
        ("Endpoint = "@ + value).len() > 0,
        ("AllowedIPs = "@ + value).len() > 0,
{
    reveal_strlit("[Peer]");
    reveal_strlit("PublicKey = ");
    reveal_strlit("PresharedKey = ");
    reveal_strlit("PersistentKeepalive = ");
    reveal_strlit("Endpoint = ");
    reveal_strlit("AllowedIPs = ");
    reveal_strlit("");
}

/// A line begins with its name.
proof fn lemma_begins_as_named(name: Text, set: Option<Text>)
    requires
        name.len() > 2,
    ensures
        forall|line: Text| #[trigger]
            setting(name, set).contains(line) ==> line.len() > 2 && line[0] == name[0] && line[1]
                == name[1],
{
    if let Some(v) = set {
        assert((name + v)[0] == name[0] && (name + v)[1] == name[1]);
    }
}

/// A setting holds exactly the line with its value.
proof fn lemma_named(name: Text, value: Text, set: Option<Text>)
    ensures
        setting(name, set).contains(name + value) <==> set == Some(value),
{
    if let Some(v) = set {
        assert(setting(name, set)[0] == name + v);
        if name + v == name + value {
            assert((name + v).skip(name.len() as int) == v);
            assert((name + value).skip(name.len() as int) == value);
        }
    }
}

/// What two parts hold, one behind the other.
proof fn lemma_either_part(a: Seq<Text>, b: Seq<Text>, line: Text)
    ensures
        (a + b).contains(line) <==> a.contains(line) || b.contains(line),
{
    let all = a + b;
    if a.contains(line) {
        let i = choose|i: int| 0 <= i < a.len() && a[i] == line;
        assert(all[i] == line);
    }
    if b.contains(line) {
        let i = choose|i: int| 0 <= i < b.len() && b[i] == line;
        assert(all[a.len() + i] == line);
    }
    if all.contains(line) {
        let i = choose|i: int| 0 <= i < all.len() && all[i] == line;
        if i < a.len() {
            assert(a[i] == line);
        } else {
            assert(b[i - a.len()] == line);
        }
    }
}

/// The configuration of some peers has a section for each, one behind the
/// other, but none for the machine itself.
pub proof fn law_every_peer_has_a_section(
    config: Seq<(Text, PeerInfoModel)>,
    pubkey: Text,
    peer: PeerInfoModel,
    local_pubkey: Text,
)
    ensures
        conf_lines(config.push((pubkey, peer)), local_pubkey) == conf_lines(config, local_pubkey)
            + if pubkey == local_pubkey {
            Seq::empty()
        } else {
            peer_section(pubkey, peer)
        },
        conf_lines(Seq::empty(), local_pubkey) == seq!["[Interface]"@, ""@],
{
    assert(config.push((pubkey, peer)).drop_last() == config);
    assert(config.push((pubkey, peer)).last() == (pubkey, peer));
}

/// The keys that the configuration cannot clear are those of the peers, other
/// than the machine itself, whose description has an empty one: no more and no
/// fewer.
pub proof fn law_empty_keys_are_cleared(
    config: Seq<(Text, PeerInfoModel)>,
    local_pubkey: Text,
    pubkey: Text,
)
    ensures
        clear_list(config, local_pubkey).contains(pubkey) <==> pubkey != local_pubkey && exists|
            i: int,
        |
            0 <= i < config.len() && (#[trigger] config[i]).0 == pubkey
                && config[i].1.preshared_key == Some(Seq::<char>::empty()),
    decreases config.len(),
{
    if config.len() > 0 {
        let front = config.drop_last();
        let last = config.last();
        law_empty_keys_are_cleared(front, local_pubkey, pubkey);
        let before = clear_list(front, local_pubkey);
        let all = clear_list(config, local_pubkey);
        if let Some(key) = last.1.preshared_key {
            assert(key.len() == 0 ==> key == Seq::<char>::empty());
        }
        assert(config[config.len() - 1] == last);
        if before.contains(pubkey) {
            let i = choose|i: int| 0 <= i < before.len() && before[i] == pubkey;
            assert(all[i] == pubkey);
            let j = choose|j: int|
                0 <= j < front.len() && (#[trigger] front[j]).0 == pubkey
                    && front[j].1.preshared_key == Some(Seq::<char>::empty());
            assert(config[j] == front[j]);
        }
        if last.0 != local_pubkey && last.1.preshared_key == Some(Seq::<char>::empty()) {
            assert(all[before.len() as int] == last.0);
        }
        if all.contains(pubkey) && !before.contains(pubkey) {
            let i = choose|i: int| 0 <= i < all.len() && all[i] == pubkey;
            if i < before.len() {
                assert(before[i] == pubkey);
            }
        }
        if exists|i: int|
            0 <= i < config.len() && (#[trigger] config[i]).0 == pubkey
                && config[i].1.preshared_key == Some(Seq::<char>::empty()) {
            let i = choose|i: int|
                0 <= i < config.len() && (#[trigger] config[i]).0 == pubkey
                    && config[i].1.preshared_key == Some(Seq::<char>::empty());
            if i < front.len() {
                assert(front[i] == config[i]);
            }
        }
    }
}

} // verus!
