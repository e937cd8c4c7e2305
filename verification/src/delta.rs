//! Changes that the server publishes one by one.
use vstd::prelude::*;

use crate::foreign::{
    is_json, json_accepted, json_array, json_field_array, json_field_integer, json_field_string,
    json_integer, json_string,
};
use crate::lan::{
    endpoint_args, is_lan_active, lan_active, update_endpoint_with_fallback, Lan, LanModel,
};
use crate::list::put;
use crate::peer::{
    add_or_update_peer, copied_list, peer_plan, remove_args, remove_peer, PeerPlan, PeerPlanModel,
};
use crate::relay_pass::Relays;
use crate::retry::{enqueued, RetryModel, RetryQueue};
use crate::state::{copied_option, endpoint_of, get_current_endpoint, WgState, WgStateModel};
use crate::text::Text;

verus! {

/// A peer that is to be added or updated.
pub struct PeerChange {
    pub pubkey: String,
    pub update: bool,
    pub endpoint: Option<String>,
    pub allowed_ips: Option<Vec<String>>,
    pub persistent_keepalive: Option<u16>,
    pub preshared_key: Option<String>,
    pub local_ips: Vec<String>,
}

/// What a `PeerChange` says.
#[verifier::ext_equal]
pub struct ChangeModel {
    pub pubkey: Text,
    pub update: bool,
    pub endpoint: Option<Text>,
    pub allowed_ips: Option<Seq<Text>>,
    pub persistent_keepalive: Option<u16>,
    pub preshared_key: Option<Text>,
    pub local_ips: Seq<Text>,
}

impl DeepView for PeerChange {
    type V = ChangeModel;

    open spec fn deep_view(&self) -> ChangeModel {
        ChangeModel {
            pubkey: self.pubkey@,
            update: self.update,
            endpoint: self.endpoint.deep_view(),
            allowed_ips: self.allowed_ips.deep_view(),
            persistent_keepalive: self.persistent_keepalive,
            preshared_key: self.preshared_key.deep_view(),
            local_ips: self.local_ips.deep_view(),
        }
    }
}

/// What a message asks for: nothing, a peer to be added or updated, a peer to
/// be removed, or other routes.
pub enum Delta {
    Nothing,
    Change(PeerChange),
    Remove(String),
    SetRoutes,
}

/// What a `Delta` says.
#[verifier::ext_equal]
pub enum DeltaModel {
    Nothing,
    Change(ChangeModel),
    Remove(Text),
    SetRoutes,
}

impl DeepView for Delta {
    type V = DeltaModel;

    open spec fn deep_view(&self) -> DeltaModel {
        match *self {
            Delta::Nothing => DeltaModel::Nothing,
            Delta::Change(change) => DeltaModel::Change(change.deep_view()),
            Delta::Remove(pubkey) => DeltaModel::Remove(pubkey@),
            Delta::SetRoutes => DeltaModel::SetRoutes,
        }
    }
}

/// The fields of a message, as far as each holds what it should.
pub struct DeltaFields {
    pub action: Option<String>,
    pub pubkey: Option<String>,
    pub endpoint: Option<String>,
    pub allowed_ips: Option<Vec<Option<String>>>,
    pub persistent_keepalive: Option<u64>,
    pub preshared_key: Option<String>,
    pub local_ips: Option<Vec<Option<String>>>,
}

/// What a `DeltaFields` says.
#[verifier::ext_equal]
pub struct FieldsModel {
    pub action: Option<Text>,
    pub pubkey: Option<Text>,
    pub endpoint: Option<Text>,
    pub allowed_ips: Option<Seq<Option<Text>>>,
    pub persistent_keepalive: Option<u64>,
    pub preshared_key: Option<Text>,
    pub local_ips: Option<Seq<Option<Text>>>,
}

impl DeepView for DeltaFields {
    type V = FieldsModel;

    open spec fn deep_view(&self) -> FieldsModel {
        FieldsModel {
            action: self.action.deep_view(),
            pubkey: self.pubkey.deep_view(),
            endpoint: self.endpoint.deep_view(),
            allowed_ips: self.allowed_ips.deep_view(),
            persistent_keepalive: self.persistent_keepalive,
            preshared_key: self.preshared_key.deep_view(),
            local_ips: self.local_ips.deep_view(),
        }
    }
}

/// The texts among those items.
pub open spec fn texts(items: Seq<Option<Text>>) -> Seq<Text>
    decreases items.len(),
{
    if items.len() == 0 {
        Seq::empty()
    } else {
        let before = texts(items.drop_last());
        match items.last() {
            Some(text) => before.push(text),
            None => before,
        }
    }
}

/// The texts among those items, where there are items.
pub open spec fn listed_texts(items: Option<Seq<Option<Text>>>) -> Option<Seq<Text>> {
    match items {
        Some(all) => Some(texts(all)),
        None => None,
    }
}

/// The lower sixteen bits of a number, where there is one.
pub open spec fn low_bits(n: Option<u64>) -> Option<u16> {
    match n {
        Some(v) => Some((v % 65536) as u16),
        None => None,
    }
}

/// What is added or updated.
pub open spec fn change_of(fields: FieldsModel, pubkey: Text, update: bool) -> ChangeModel {
    ChangeModel {
        pubkey,
        update,
        endpoint: fields.endpoint,
        allowed_ips: listed_texts(fields.allowed_ips),
        persistent_keepalive: low_bits(fields.persistent_keepalive),
        preshared_key: fields.preshared_key,
        local_ips: match fields.local_ips {
            Some(items) => texts(items),
            None => Seq::empty(),
        },
    }
}

/// What a message with those fields asks for. One without a key, or about the
/// own key, asks for nothing, and neither does an addition without addresses.
pub open spec fn delta_of(fields: FieldsModel, local_pubkey: Text) -> DeltaModel {
    match (fields.action, fields.pubkey) {
        (Some(action), Some(pubkey)) => if pubkey.len() == 0 || pubkey == local_pubkey {
            DeltaModel::Nothing
        } else if action == "add"@ {
            if fields.allowed_ips is None {
                DeltaModel::Nothing
            } else {
                DeltaModel::Change(change_of(fields, pubkey, false))
            }
        } else if action == "update"@ {
            DeltaModel::Change(change_of(fields, pubkey, true))
        } else if action == "remove"@ {
            DeltaModel::Remove(pubkey)
        } else if action == "set_routes"@ {
            DeltaModel::SetRoutes
        } else {
            DeltaModel::Nothing
        },
        _ => DeltaModel::Nothing,
    }
}

/// The fields of a message.
pub open spec fn fields_of(payload: Seq<u8>) -> FieldsModel {
    FieldsModel {
        action: json_string(payload, "action"@),
        pubkey: json_string(payload, "pubkey"@),
        endpoint: json_string(payload, "endpoint"@),
        allowed_ips: json_array(payload, "allowed_ips"@),
        persistent_keepalive: json_integer(payload, "persistent_keepalive"@),
        preshared_key: json_string(payload, "preshared_key"@),
        local_ips: json_array(payload, "local_ips"@),
    }
}

/// The texts among those items.
fn keep_texts(items: &Vec<Option<String>>) -> (all: Vec<String>)
    ensures
        all.deep_view() == texts(items.deep_view()),
{
    let ghost model = items.deep_view();
    let mut all: Vec<String> = Vec::new();
    let mut i: usize = 0;
    assert(model.take(0) == Seq::<Option<Text>>::empty());
    while i < items.len()
        invariant
            i <= items@.len(),
            model == items.deep_view(),
            all.deep_view() == texts(model.take(i as int)),
        decreases items@.len() - i,
    {
        assert(model[i as int] == items@[i as int].deep_view());
        assert(model.take(i + 1).drop_last() == model.take(i as int));
        match &items[i] {
            Some(text) => {
                put(&mut all, text.clone());
            },
            None => {},
        }
        i = i + 1;
    }
    assert(model.take(i as int) == model);
    all
}

/// What is added or updated.
fn read_change(fields: DeltaFields, pubkey: String, update: bool) -> (change: PeerChange)
    ensures
        change.deep_view() == change_of(fields.deep_view(), pubkey@, update),
{
    let allowed_ips = match &fields.allowed_ips {
        Some(items) => Some(keep_texts(items)),
        None => None,
    };
    let local_ips = match &fields.local_ips {
        Some(items) => keep_texts(items),
        None => Vec::new(),
    };
    let persistent_keepalive: Option<u16> = match fields.persistent_keepalive {
        Some(v) => {
            assert((v % 65536) as u16 == v % 65536);
            Some((v % 65536) as u16)
        },
        None => None,
    };
    PeerChange {
        pubkey,
        update,
        endpoint: fields.endpoint,
        allowed_ips,
        persistent_keepalive,
        preshared_key: fields.preshared_key,
        local_ips,
    }
}

/// What a message with those fields asks for.
pub fn read_delta(fields: DeltaFields, local_pubkey: &str) -> (delta: Delta)
    ensures
        delta.deep_view() == delta_of(fields.deep_view(), local_pubkey@),
{
    let action = match &fields.action {
        Some(action) => action.clone(),
        None => {
            return Delta::Nothing;
        },
    };
    let pubkey = match &fields.pubkey {
        Some(pubkey) => pubkey.clone(),
        None => {
            return Delta::Nothing;
        },
    };
    if pubkey.as_str().is_empty() || pubkey.as_str().eq(local_pubkey) {
        return Delta::Nothing;
    }
    let action = action.as_str();
    if action.eq("add") {
        if fields.allowed_ips.is_none() {
            Delta::Nothing
        } else {
            Delta::Change(read_change(fields, pubkey, false))
        }
    } else if action.eq("update") {
        Delta::Change(read_change(fields, pubkey, true))
    } else if action.eq("remove") {
        Delta::Remove(pubkey)
    } else if action.eq("set_routes") {
        Delta::SetRoutes
    } else {
        Delta::Nothing
    }
}

/// What a message asks for. One that is not JSON asks for nothing.
pub open spec fn message_delta(payload: Seq<u8>, local_pubkey: Text) -> DeltaModel {
    if is_json(payload) {
        delta_of(fields_of(payload), local_pubkey)
    } else {
        DeltaModel::Nothing
    }
}

/// What a message asks for. One that is not JSON asks for nothing.
pub fn handle_delta_message(payload: &[u8], local_pubkey: &str) -> (delta: Delta)
    ensures
        delta.deep_view() == message_delta(payload@, local_pubkey@),
{
    if !json_accepted(payload) {
        return Delta::Nothing;
    }
    let fields = DeltaFields {
        action: json_field_string(payload, "action"),
        pubkey: json_field_string(payload, "pubkey"),
        endpoint: json_field_string(payload, "endpoint"),
        allowed_ips: json_field_array(payload, "allowed_ips"),
        persistent_keepalive: json_field_integer(payload, "persistent_keepalive"),
        preshared_key: json_field_string(payload, "preshared_key"),
        local_ips: json_field_array(payload, "local_ips"),
    };
    read_delta(fields, local_pubkey)
}

// ---------- a peer is added or updated ----------

/// The peer is to be updated and is not there: the full state is needed.
pub open spec fn full_state_needed(change: ChangeModel, state: WgStateModel) -> bool {
    change.update && !state.peers.has(change.pubkey)
}

/// Whether the full state has to be requested, because a peer is to be updated
/// that is not there.
pub fn needs_full_state(change: &PeerChange, state: &WgState) -> (answer: bool)
    ensures
        answer == full_state_needed(change.deep_view(), state.deep_view()),
{
    change.update && !state.peers.contains_key(change.pubkey.as_str())
}

/// How the peer is put on the interface.
pub open spec fn change_plan(interface: Text, change: ChangeModel, state: WgStateModel) -> PeerPlanModel {
    peer_plan(
        interface,
        change.pubkey,
        change.endpoint,
        change.allowed_ips,
        change.persistent_keepalive,
        change.preshared_key,
        state,
    )
}

/// How the peer is put on the interface.
pub fn plan_change(interface: &str, change: &PeerChange, state: &WgState) -> (plan: PeerPlan)
    ensures
        plan.deep_view() == change_plan(interface@, change.deep_view(), state.deep_view()),
{
    add_or_update_peer(
        interface,
        change.pubkey.as_str(),
        &change.endpoint,
        &change.allowed_ips,
        change.persistent_keepalive,
        &change.preshared_key,
        state,
    )
}

/// The endpoint that is set once more after the peer was put on the interface:
/// the new one, where it is another than before, unless the one before is
/// local and working.
pub open spec fn moved_endpoint(
    change: ChangeModel,
    state: WgStateModel,
    lan: LanModel,
    now_secs: u64,
) -> Option<Text> {
    let current = endpoint_of(state, change.pubkey);
    if change.endpoint is None || current == change.endpoint {
        None
    } else if current is Some && lan_active(state, change.pubkey, current->0, lan, now_secs) {
        None
    } else {
        change.endpoint
    }
}

/// The task for a peer that could not be put on the interface.
pub open spec fn change_task(change: ChangeModel, now: u64) -> RetryModel {
    RetryModel {
        pubkey: change.pubkey,
        endpoint: change.endpoint,
        allowed_ips: change.allowed_ips,
        persistent_keepalive: change.persistent_keepalive,
        preshared_key: change.preshared_key,
        retry_count: 0,
        last_attempt: now,
    }
}

/// What follows when the peer was put on the interface or not. Where it was,
/// the result holds the arguments of `wg` that set its endpoint, if it is to
/// move; where it was not, it is put in line to be tried again.
pub fn after_change(
    interface: &str,
    change: &PeerChange,
    applied: bool,
    state: &WgState,
    lan: &Lan,
    queue: &mut RetryQueue,
    now_secs: u64,
    now: u64,
) -> (args: Option<Vec<String>>)
    ensures
        final(queue).deep_view() == if applied {
            old(queue).deep_view()
        } else {
            enqueued(old(queue).deep_view(), change_task(change.deep_view(), now))
        },
        args.deep_view() == match moved_endpoint(
            change.deep_view(),
            state.deep_view(),
            lan.deep_view(),
            now_secs,
        ) {
            Some(endpoint) => if applied {
                Some(endpoint_args(interface@, change.pubkey@, endpoint))
            } else {
                None
            },
            None => None,
        },
{
    if !applied {
        queue.enqueue(
            change.pubkey.clone(),
            copied_option(&change.endpoint),
            copied_list(&change.allowed_ips),
            change.persistent_keepalive,
            copied_option(&change.preshared_key),
            now,
        );
        return None;
    }
    let endpoint = match &change.endpoint {
        Some(endpoint) => endpoint,
        None => {
            return None;
        },
    };
    let current = get_current_endpoint(state, change.pubkey.as_str());
    match &current {
        Some(used) => {
            if used.as_str().eq(endpoint.as_str()) || is_lan_active(
                state,
                change.pubkey.as_str(),
                used.as_str(),
                lan,
                now_secs,
            ) {
                return None;
            }
        },
        None => {},
    }
    Some(
        update_endpoint_with_fallback(
            interface,
            change.pubkey.as_str(),
            endpoint.as_str(),
            &current,
        ),
    )
}

// ---------- a peer is removed ----------

/// The arguments of `wg` that remove a peer. It is forgotten, and so is the
/// state that was last read.
pub fn apply_removal(
    interface: &str,
    pubkey: &str,
    relays: &mut Relays,
    cache: &mut Option<(u64, WgState)>,
) -> (args: Vec<String>)
    ensures
        args.deep_view() == remove_args(interface@, pubkey@),
        final(relays).deep_view() == old(relays).deep_view().without(pubkey@),
        *final(cache) is None,
{
    relays.forget(pubkey);
    *cache = None;
    remove_peer(interface, pubkey)
}

// ---------- what holds of the messages ----------

/// No message touches the own key.
pub proof fn law_own_key_is_ignored(fields: FieldsModel, local_pubkey: Text)
    ensures
        fields.pubkey == Some(local_pubkey) ==> delta_of(fields, local_pubkey)
            == DeltaModel::Nothing,
        delta_of(fields, local_pubkey) matches DeltaModel::Change(change) ==> change.pubkey
            != local_pubkey,
        delta_of(fields, local_pubkey) matches DeltaModel::Remove(pubkey) ==> pubkey
            != local_pubkey,
{
}

/// The endpoint is not set once more where the one that was in use is local
/// and working, nor where it is the same.
pub proof fn law_endpoint_is_not_set_twice(
    change: ChangeModel,
    state: WgStateModel,
    lan: LanModel,
    now_secs: u64,
)
    requires
        endpoint_of(state, change.pubkey) matches Some(current) && (Some(current)
            == change.endpoint || lan_active(state, change.pubkey, current, lan, now_secs)),
    ensures
        moved_endpoint(change, state, lan, now_secs) is None,
{
}

/// Of the items of a list every text is kept, in its place among the others,
/// and nothing else.
pub proof fn law_every_text_is_kept(a: Seq<Option<Text>>, b: Seq<Option<Text>>, text: Text)
    ensures
        texts(a + b) == texts(a) + texts(b),
        texts(seq![Some(text)]) == seq![text],
        texts(seq![None]) == Seq::<Text>::empty(),
        texts(Seq::empty()) == Seq::<Text>::empty(),
    decreases b.len(),
{
    assert(texts(Seq::empty()) == Seq::<Text>::empty());
    assert(seq![Some(text)].drop_last() == Seq::<Option<Text>>::empty());
    assert(seq![None::<Text>].drop_last() == Seq::<Option<Text>>::empty());
    if b.len() == 0 {
        assert(a + b == a);
        assert(texts(a) + texts(b) == texts(a));
    } else {
        law_every_text_is_kept(a, b.drop_last(), text);
        assert((a + b).drop_last() == a + b.drop_last());
        assert((a + b).last() == b.last());
    }
}

/// A list of nothing but texts is kept whole.
pub proof fn law_list_of_texts_is_kept(list: Seq<Text>)
    ensures
        texts(list.map_values(|text: Text| Some(text))) == list,
    decreases list.len(),
{
    if list.len() > 0 {
        let items = list.map_values(|text: Text| Some(text));
        let front = list.drop_last();
        law_list_of_texts_is_kept(front);
        assert(items.drop_last() == front.map_values(|text: Text| Some(text)));
        assert(list == front.push(list.last()));
    }
}

/// The two words are told apart.
proof fn lemma_actions_differ()
    ensures
        "add"@ != "update"@,
        "add"@ != "remove"@,
        "add"@ != "set_routes"@,
        "update"@ != "remove"@,
        "update"@ != "set_routes"@,
        "remove"@ != "set_routes"@,
{
    reveal_strlit("add");
    reveal_strlit("update");
    reveal_strlit("remove");
    reveal_strlit("set_routes");
    assert("add"@.len() == 3);
    assert("set_routes"@.len() == 10);
    assert("update"@[0] == 'u');
    assert("remove"@[0] == 'r');
}

/// An update and an addition with the same fields ask for the same, but for
/// the flag that tells them apart: nothing that one of them carries is dropped
/// from the other.
pub proof fn law_update_differs_only_in_the_flag(
    fields: FieldsModel,
    pubkey: Text,
    local_pubkey: Text,
)
    requires
        fields.pubkey == Some(pubkey),
        pubkey.len() > 0,
        pubkey != local_pubkey,
        fields.allowed_ips is Some,
    ensures
        ({
            let addition = FieldsModel { action: Some("add"@), ..fields };
            let update = FieldsModel { action: Some("update"@), ..fields };
            &&& delta_of(addition, local_pubkey) matches DeltaModel::Change(added)
            &&& delta_of(update, local_pubkey) matches DeltaModel::Change(updated)
            &&& !added.update
            &&& updated == (ChangeModel { update: true, ..added })
        }),
{
    lemma_actions_differ();
}

/// A message that adds or updates a peer carries over to the change all that
/// it says: the key, the endpoint, every text of the list of addresses, the
/// keepalive, the pre-shared key, and every text of the list of local
/// endpoints.
pub proof fn law_change_carries_the_message(
    payload: Seq<u8>,
    local_pubkey: Text,
    action: Text,
    pubkey: Text,
    allowed_ips: Seq<Text>,
    local_ips: Seq<Text>,
)
    requires
        is_json(payload),
        action == "add"@ || action == "update"@,
        json_string(payload, "action"@) == Some(action),
        json_string(payload, "pubkey"@) == Some(pubkey),
        pubkey.len() > 0,
        pubkey != local_pubkey,
        json_array(payload, "allowed_ips"@) == Some(
            allowed_ips.map_values(|text: Text| Some(text)),
        ),
        json_array(payload, "local_ips"@) == Some(local_ips.map_values(|text: Text| Some(text))),
    ensures
        message_delta(payload, local_pubkey) matches DeltaModel::Change(change) && {
            &&& change.pubkey == pubkey
            &&& change.update <==> action == "update"@
            &&& change.endpoint == json_string(payload, "endpoint"@)
            &&& change.allowed_ips == Some(allowed_ips)
            &&& change.preshared_key == json_string(payload, "preshared_key"@)
            &&& change.local_ips == local_ips
            &&& json_integer(payload, "persistent_keepalive"@) is None
                ==> change.persistent_keepalive is None
            &&& json_integer(payload, "persistent_keepalive"@) matches Some(n) ==> (n < 65536
                ==> change.persistent_keepalive == Some(n as u16))
        },
{
    lemma_actions_differ();
    law_list_of_texts_is_kept(allowed_ips);
    law_list_of_texts_is_kept(local_ips);
}

/// What is not in the message is not in the change: an update without
/// addresses or local endpoints sets none.
pub proof fn law_update_may_say_little(fields: FieldsModel, pubkey: Text, local_pubkey: Text)
    requires
        fields.action == Some("update"@),
        fields.pubkey == Some(pubkey),
        pubkey.len() > 0,
        pubkey != local_pubkey,
    ensures
        delta_of(fields, local_pubkey) matches DeltaModel::Change(change) && {
            &&& change.update
            &&& change.pubkey == pubkey
            &&& change.allowed_ips is None <==> fields.allowed_ips is None
            &&& fields.local_ips is None ==> change.local_ips.len() == 0
            &&& change.endpoint == fields.endpoint
            &&& change.preshared_key == fields.preshared_key
            &&& change.persistent_keepalive is None <==> fields.persistent_keepalive is None
        },
{
    lemma_actions_differ();
}

/// What a message asks for is decided by its action, and only where it names
/// another peer: a removal is of that peer, routes are set whatever else there
/// is, and an addition needs addresses. Nothing else asks for anything.
pub proof fn law_action_decides(fields: FieldsModel, pubkey: Text, local_pubkey: Text)
    ensures
        fields.action is None || fields.pubkey is None ==> delta_of(fields, local_pubkey)
            == DeltaModel::Nothing,
        fields.pubkey == Some(Seq::<char>::empty()) ==> delta_of(fields, local_pubkey)
            == DeltaModel::Nothing,
        fields.pubkey == Some(pubkey) && pubkey.len() > 0 && pubkey != local_pubkey ==> {
            &&& fields.action == Some("remove"@) ==> delta_of(fields, local_pubkey)
                == DeltaModel::Remove(pubkey)
            &&& fields.action == Some("set_routes"@) ==> delta_of(fields, local_pubkey)
                == DeltaModel::SetRoutes
            &&& fields.action == Some("add"@) ==> (delta_of(fields, local_pubkey) is Change
                <==> fields.allowed_ips is Some)
        },
        delta_of(fields, local_pubkey) is Change ==> fields.action == Some("add"@)
            || fields.action == Some("update"@),
        delta_of(fields, local_pubkey) is Remove ==> fields.action == Some("remove"@),
        delta_of(fields, local_pubkey) is SetRoutes ==> fields.action == Some("set_routes"@),
        delta_of(fields, local_pubkey) matches DeltaModel::Change(change) ==> Some(change.pubkey)
            == fields.pubkey,
        delta_of(fields, local_pubkey) matches DeltaModel::Remove(gone) ==> Some(gone)
            == fields.pubkey,
{
    lemma_actions_differ();
}

/// What is not JSON asks for nothing.
pub proof fn law_broken_message_is_ignored(payload: Seq<u8>, local_pubkey: Text)
    requires
        !is_json(payload),
    ensures
        message_delta(payload, local_pubkey) == DeltaModel::Nothing,
{
}

/// The full state is asked for exactly where a peer is to be updated that is
/// not there; an addition never asks for it.
pub proof fn law_unknown_peer_needs_the_full_state(change: ChangeModel, state: WgStateModel)
    ensures
        !change.update ==> !full_state_needed(change, state),
        state.peers.has(change.pubkey) ==> !full_state_needed(change, state),
        change.update && !state.peers.has(change.pubkey) ==> full_state_needed(change, state),
{
}

/// A change with addresses, be it an addition or an update, sets exactly these,
/// and with them the endpoint and the pre-shared key of the change.
pub proof fn law_change_sets_its_addresses(
    interface: Text,
    change: ChangeModel,
    ips: Seq<Text>,
    state: WgStateModel,
)
    requires
        change.allowed_ips == Some(ips),
        ips.len() > 0,
    ensures
        change_plan(interface, change, state).update matches Some(update) && {
            &&& update.pubkey == change.pubkey
            &&& update.interface == interface
            &&& update.allowed_ips == ips
            &&& update.endpoint == change.endpoint
            &&& change.preshared_key matches Some(key) ==> (key.len() > 0
                ==> update.preshared_key == Some(key))
            &&& change.persistent_keepalive is Some ==> update.keepalive
                == change.persistent_keepalive
        },
        change_plan(interface, ChangeModel { update: !change.update, ..change }, state)
            == change_plan(interface, change, state),
{
}

/// A new endpoint is set once more where the peer had none, or another one that
/// does not work over the local network; without a new endpoint none is set.
pub proof fn law_new_endpoint_is_set(
    change: ChangeModel,
    endpoint: Text,
    state: WgStateModel,
    lan: LanModel,
    now_secs: u64,
)
    requires
        change.endpoint == Some(endpoint),
    ensures
        endpoint_of(state, change.pubkey) is None ==> moved_endpoint(change, state, lan, now_secs)
            == Some(endpoint),
        endpoint_of(state, change.pubkey) matches Some(current) ==> (current != endpoint
            && !lan_active(state, change.pubkey, current, lan, now_secs) ==> moved_endpoint(
            change,
            state,
            lan,
            now_secs,
        ) == Some(endpoint)),
        moved_endpoint(ChangeModel { endpoint: None, ..change }, state, lan, now_secs) is None,
{
}

/// A change that failed is tried again as a whole: the task has the key, the
/// endpoint, the addresses, the keepalive and the pre-shared key of the change,
/// and has not been tried again yet.
pub proof fn law_failed_change_is_tried_as_a_whole(change: ChangeModel, now: u64)
    ensures
        ({
            let task = change_task(change, now);
            &&& task.pubkey == change.pubkey
            &&& task.endpoint == change.endpoint
            &&& task.allowed_ips == change.allowed_ips
            &&& task.persistent_keepalive == change.persistent_keepalive
            &&& task.preshared_key == change.preshared_key
            &&& task.retry_count == 0
            &&& task.last_attempt == now
        }),
{
}

/// Of lists with other items than texts the texts are carried over, for both
/// actions; and of a keepalive that is too large the lower sixteen bits.
pub proof fn law_mixed_lists_keep_their_texts(
    fields: FieldsModel,
    pubkey: Text,
    local_pubkey: Text,
    allowed_ips: Seq<Option<Text>>,
    local_ips: Seq<Option<Text>>,
    keepalive: u64,
)
    requires
        fields.action == Some("add"@) || fields.action == Some("update"@),
        fields.pubkey == Some(pubkey),
        pubkey.len() > 0,
        pubkey != local_pubkey,
        fields.allowed_ips == Some(allowed_ips),
        fields.local_ips == Some(local_ips),
        fields.persistent_keepalive == Some(keepalive),
    ensures
        delta_of(fields, local_pubkey) matches DeltaModel::Change(change) && {
            &&& change.allowed_ips == Some(texts(allowed_ips))
            &&& change.local_ips == texts(local_ips)
            &&& change.persistent_keepalive == Some((keepalive % 65536) as u16)
        },
{
    lemma_actions_differ();
}

} // verus!
