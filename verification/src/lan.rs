//! Reaching peers over the local network: when an endpoint counts as local,
//! when a peer is switched to one, and when the switch is taken back.
use vstd::prelude::*;

use crate::clock::{elapsed, has_elapsed, NANOS_PER_SEC};
use crate::foreign::{in_net, Ip, Net};
use crate::list::{put, take_out};
use crate::net::{
    endpoint_addr, endpoint_local, endpoint_text, find_local_address, first_local,
    is_local_endpoint, law_first_local_endpoint_is_found, law_same_lan_is_local, write_endpoint,
};
use crate::state::{
    copied_option, endpoint_of, first_tunnel_ip, get_current_endpoint, has_recent_handshake,
    recent, tunnel_ip, WgState, WgStateModel,
};
use crate::table::{Entries, Table};
use crate::text::{lemma_filter_contains, lemma_filter_push, owned, Text};

verus! {

/// How old a handshake may be, in seconds, for a local endpoint to count as working.
pub const HANDSHAKE_MAX_AGE_SECS: u64 = 20;

/// The seconds between two attempts to switch one peer.
pub const MIN_LAN_RETRY_INTERVAL_SECS: u64 = 120;

/// Whether peers may be switched to local endpoints, and the networks that are local.
pub struct Lan {
    pub enabled: bool,
    pub nets: Vec<Net>,
}

/// What a `Lan` says.
#[verifier::ext_equal]
pub struct LanModel {
    pub enabled: bool,
    pub nets: Seq<Net>,
}

impl DeepView for Lan {
    type V = LanModel;

    open spec fn deep_view(&self) -> LanModel {
        LanModel { enabled: self.enabled, nets: self.nets@ }
    }
}

// ---------- local endpoints in use ----------

/// Switching is on, the endpoint is local, and the peer shook hands lately.
pub open spec fn lan_active(
    state: WgStateModel,
    pubkey: Text,
    endpoint: Text,
    lan: LanModel,
    now_secs: u64,
) -> bool {
    &&& lan.enabled
    &&& endpoint_local(lan.nets, endpoint)
    &&& recent(state, pubkey, HANDSHAKE_MAX_AGE_SECS, now_secs)
}

/// Whether the peer is in touch through a local endpoint.
pub fn is_lan_active(state: &WgState, pubkey: &str, endpoint: &str, lan: &Lan, now_secs: u64) -> (
answer: bool)
    ensures
        answer == lan_active(
            state.deep_view(),
            pubkey@,
            endpoint@,
            lan.deep_view(),
            now_secs,
        ),
{
    if !lan.enabled {
        return false;
    }
    is_local_endpoint(&lan.nets, endpoint) && has_recent_handshake(
        state,
        pubkey,
        HANDSHAKE_MAX_AGE_SECS,
        now_secs,
    )
}

/// The endpoint to configure for a peer: the one in use where it is local and
/// working, the wanted one otherwise.
pub open spec fn preserved_endpoint(
    state: WgStateModel,
    pubkey: Text,
    wanted: Option<Text>,
    lan: LanModel,
    now_secs: u64,
) -> Option<Text> {
    match endpoint_of(state, pubkey) {
        Some(current) => if lan_active(state, pubkey, current, lan, now_secs) {
            Some(current)
        } else {
            wanted
        },
        None => wanted,
    }
}

/// The endpoint to configure for a peer.
pub fn preserve_lan_endpoint(
    state: &WgState,
    pubkey: &str,
    wanted: &Option<String>,
    lan: &Lan,
    now_secs: u64,
) -> (endpoint: Option<String>)
    ensures
        endpoint.deep_view() == preserved_endpoint(
            state.deep_view(),
            pubkey@,
            wanted.deep_view(),
            lan.deep_view(),
            now_secs,
        ),
{
    match get_current_endpoint(state, pubkey) {
        Some(current) => {
            if is_lan_active(state, pubkey, current.as_str(), lan, now_secs) {
                Some(current)
            } else {
                copied_option(wanted)
            }
        },
        None => copied_option(wanted),
    }
}

/// Some peer has a local endpoint.
pub open spec fn lan_peer(state: WgStateModel, lan: LanModel) -> bool {
    &&& lan.enabled
    &&& exists|pubkey: Text| #[trigger]
        state.peers.has(pubkey) && match state.peers.map[pubkey].endpoint {
            Some(endpoint) => endpoint_local(lan.nets, endpoint),
            None => false,
        }
}

/// Whether some peer has a local endpoint.
pub fn has_lan_peer(state: &WgState, lan: &Lan) -> (answer: bool)
    ensures
        answer == lan_peer(state.deep_view(), lan.deep_view()),
{
    if !lan.enabled {
        return false;
    }
    let ghost peers = state.deep_view().peers;
    let n: usize = state.peers.len();
    let mut i: usize = 0;
    while i < n
        invariant
            i <= n == peers.keys.len(),
            peers == state.deep_view().peers,
            peers == state.peers.deep_view(),
            lan.enabled,
            forall|j: int|
                0 <= j < i ==> match (#[trigger] peers.map[peers.keys[j]]).endpoint {
                    Some(endpoint) => !endpoint_local(lan.nets@, endpoint),
                    None => true,
                },
        decreases n - i,
    {
        match &state.peers.value_at(i).endpoint {
            Some(endpoint) => {
                if is_local_endpoint(&lan.nets, endpoint.as_str()) {
                    assert(peers.has(peers.keys[i as int]));
                    return true;
                }
            },
            None => {},
        }
        i = i + 1;
    }
    proof {
        assert forall|pubkey: Text| #[trigger] peers.has(pubkey) implies match peers.map[pubkey].endpoint {
            Some(endpoint) => !endpoint_local(lan.nets@, endpoint),
            None => true,
        } by {
            assert(peers.keys.contains(pubkey));
            let j = choose|j: int| 0 <= j < peers.keys.len() && peers.keys[j] == pubkey;
            assert(peers.map[peers.keys[j]] == peers.map[pubkey]);
        }
    }
    false
}

// ---------- setting an endpoint ----------

/// The arguments of `wg` that set the endpoint of a peer.
pub open spec fn endpoint_args(interface: Text, pubkey: Text, endpoint: Text) -> Seq<Text> {
    seq!["set"@, interface, "peer"@, pubkey, "endpoint"@, endpoint]
}

/// The arguments of `wg` that set the endpoint of a peer.
pub fn update_wg_endpoint(interface: &str, pubkey: &str, new_endpoint: &str) -> (args: Vec<String>)
    ensures
        args.deep_view() == endpoint_args(interface@, pubkey@, new_endpoint@),
{
    owned(vec!["set", interface, "peer", pubkey, "endpoint", new_endpoint])
}

/// The arguments of `wg` that set the endpoint of a peer to one that was
/// announced for it. There is no way back from it: the former endpoint plays
/// no part.
pub fn update_endpoint_with_fallback(
    interface: &str,
    pubkey: &str,
    new_endpoint: &str,
    _fallback: &Option<String>,
) -> (args: Vec<String>)
    ensures
        args.deep_view() == endpoint_args(interface@, pubkey@, new_endpoint@),
{
    update_wg_endpoint(interface, pubkey, new_endpoint)
}

// ---------- switching ----------

/// A switch to a local endpoint that has yet to prove itself.
pub struct LanVerificationTask {
    pub interface: String,
    pub pubkey: String,
    pub new_endpoint: String,
    pub fallback: Option<String>,
    pub start: u64,
    pub timeout_secs: u64,
}

/// What a `LanVerificationTask` says.
#[verifier::ext_equal]
pub struct LanTaskModel {
    pub interface: Text,
    pub pubkey: Text,
    pub new_endpoint: Text,
    pub fallback: Option<Text>,
    pub start: u64,
    pub timeout_secs: u64,
}

impl DeepView for LanVerificationTask {
    type V = LanTaskModel;

    open spec fn deep_view(&self) -> LanTaskModel {
        LanTaskModel {
            interface: self.interface@,
            pubkey: self.pubkey@,
            new_endpoint: self.new_endpoint@,
            fallback: self.fallback.deep_view(),
            start: self.start,
            timeout_secs: self.timeout_secs,
        }
    }
}

/// The peer was tried less than two minutes ago.
pub open spec fn tried_lately(attempts: Entries<u64>, pubkey: Text, now: u64) -> bool {
    match attempts.get(pubkey) {
        Some(last) => elapsed(last, now) < MIN_LAN_RETRY_INTERVAL_SECS * NANOS_PER_SEC,
        None => false,
    }
}

/// The local endpoint that a peer is to be switched to: the first of its own
/// that is local here, unless switching is off or was tried lately.
pub open spec fn switch_target(
    attempts: Entries<u64>,
    pubkey: Text,
    local_endpoints: Seq<Text>,
    lan: LanModel,
    now: u64,
) -> Option<Text> {
    if !lan.enabled || tried_lately(attempts, pubkey, now) {
        None
    } else {
        match first_local(local_endpoints, lan.nets) {
            Some((ip, port)) => Some(endpoint_text(ip, port)),
            None => None,
        }
    }
}

/// The local endpoint that a peer is to be switched to, if any. That it is
/// tried now is recorded in `attempts`.
pub fn try_switch_to_lan_endpoint(
    attempts: &mut Table<u64>,
    pubkey: &str,
    local_endpoints: &[String],
    lan: &Lan,
    now: u64,
) -> (target: Option<String>)
    ensures
        target.deep_view() == switch_target(
            old(attempts).deep_view(),
            pubkey@,
            local_endpoints.deep_view(),
            lan.deep_view(),
            now,
        ),
        final(attempts).deep_view() == if target is Some {
            old(attempts).deep_view().insert(pubkey@, now)
        } else {
            old(attempts).deep_view()
        },
{
    if !lan.enabled {
        return None;
    }
    match attempts.get(pubkey) {
        Some(last) => {
            if !has_elapsed(*last, now, MIN_LAN_RETRY_INTERVAL_SECS) {
                return None;
            }
        },
        None => {},
    }
    match find_local_address(local_endpoints, &lan.nets) {
        Some((ip, port)) => {
            attempts.insert(pubkey.to_owned(), now);
            Some(write_endpoint(&ip, port))
        },
        None => None,
    }
}

/// What a switch takes: the arguments of `wg`, and the address in the tunnel
/// to poke, where one is known.
pub struct LanSwitch {
    pub args: Vec<String>,
    pub handshake: Option<String>,
}

/// The addresses that go to a peer: none where it is not there.
pub open spec fn allowed_of(state: WgStateModel, pubkey: Text) -> Seq<Text> {
    match state.peers.get(pubkey) {
        Some(peer) => peer.allowed_ips,
        None => Seq::empty(),
    }
}

/// The task that checks a switch to `target` later, with the endpoint in use as
/// the way back.
pub open spec fn switch_task(
    interface: Text,
    pubkey: Text,
    target: Text,
    state: WgStateModel,
    wait_secs: u64,
    now: u64,
) -> LanTaskModel {
    LanTaskModel {
        interface,
        pubkey,
        new_endpoint: target,
        fallback: endpoint_of(state, pubkey),
        start: now,
        timeout_secs: wait_secs,
    }
}

/// Switches a peer to a local endpoint, unless it uses that one already. The
/// switch is put among the `tasks` to be checked later, with the endpoint in
/// use as the way back.
pub fn switch_endpoint(
    tasks: &mut Vec<LanVerificationTask>,
    interface: &str,
    pubkey: &str,
    target: &str,
    state: &WgState,
    wait_secs: u64,
    now: u64,
) -> (switch: Option<LanSwitch>)
    ensures
        match switch {
            Some(s) => {
                &&& endpoint_of(state.deep_view(), pubkey@) != Some(target@)
                &&& s.args.deep_view() == endpoint_args(interface@, pubkey@, target@)
                &&& s.handshake.deep_view() == tunnel_ip(allowed_of(state.deep_view(), pubkey@))
                &&& final(tasks).deep_view() == old(tasks).deep_view().push(
                    switch_task(
                        interface@,
                        pubkey@,
                        target@,
                        state.deep_view(),
                        wait_secs,
                        now,
                    ),
                )
            },
            None => {
                &&& endpoint_of(state.deep_view(), pubkey@) == Some(target@)
                &&& final(tasks).deep_view() == old(tasks).deep_view()
            },
        },
{
    let current = get_current_endpoint(state, pubkey);
    match &current {
        Some(endpoint) => {
            if endpoint.as_str().eq(target) {
                return None;
            }
        },
        None => {},
    }
    let handshake = match state.peers.get(pubkey) {
        Some(peer) => first_tunnel_ip(&peer.allowed_ips),
        None => None,
    };
    put(
        tasks,
        LanVerificationTask {
            interface: interface.to_owned(),
            pubkey: pubkey.to_owned(),
            new_endpoint: target.to_owned(),
            fallback: current,
            start: now,
            timeout_secs: wait_secs,
        },
    );
    Some(LanSwitch { args: update_wg_endpoint(interface, pubkey, target), handshake })
}

// ---------- checking a switch ----------

/// The peer is still there and still uses the endpoint it was switched to.
pub open spec fn still_switched(task: LanTaskModel, state: WgStateModel) -> bool {
    endpoint_of(state, task.pubkey) == Some(task.new_endpoint)
}

/// The switch is neither confirmed by a handshake, nor out of time, nor undone
/// by someone else: it has to be looked at again.
pub open spec fn undecided(task: LanTaskModel, state: WgStateModel, now_secs: u64, now: u64) -> bool {
    &&& still_switched(task, state)
    &&& !recent(state, task.pubkey, HANDSHAKE_MAX_AGE_SECS, now_secs)
    &&& elapsed(task.start, now) < task.timeout_secs * NANOS_PER_SEC
}

/// The switch brought no handshake in time and has to be taken back.
pub open spec fn failed(task: LanTaskModel, state: WgStateModel, now_secs: u64, now: u64) -> bool {
    &&& still_switched(task, state)
    &&& !recent(state, task.pubkey, HANDSHAKE_MAX_AGE_SECS, now_secs)
    &&& elapsed(task.start, now) >= task.timeout_secs * NANOS_PER_SEC
}

/// The tasks that stay to be looked at again.
pub open spec fn kept_tasks(
    tasks: Seq<LanTaskModel>,
    state: WgStateModel,
    now_secs: u64,
    now: u64,
) -> Seq<LanTaskModel> {
    tasks.filter(|t: LanTaskModel| undecided(t, state, now_secs, now))
}

/// The arguments of `wg` that take the failed switches back, for those that
/// have an endpoint to go back to.
pub open spec fn reverts(
    tasks: Seq<LanTaskModel>,
    state: WgStateModel,
    now_secs: u64,
    now: u64,
) -> Seq<Seq<Text>>
    decreases tasks.len(),
{
    if tasks.len() == 0 {
        Seq::empty()
    } else {
        let before = reverts(tasks.drop_last(), state, now_secs, now);
        let task = tasks.last();
        match task.fallback {
            Some(fallback) => if failed(task, state, now_secs, now) {
                before.push(endpoint_args(task.interface, task.pubkey, fallback))
            } else {
                before
            },
            None => before,
        }
    }
}

/// What becomes of a task.
enum Verdict {
    Keep,
    Drop,
    Revert(Vec<String>),
}

/// Looks at one task.
fn judge(task: &LanVerificationTask, state: &WgState, now_secs: u64, now: u64) -> (verdict: Verdict)
    ensures
        match verdict {
            Verdict::Keep => undecided(task.deep_view(), state.deep_view(), now_secs, now),
            Verdict::Drop => !undecided(task.deep_view(), state.deep_view(), now_secs, now) && !(
            failed(task.deep_view(), state.deep_view(), now_secs, now) && task.fallback is Some),
            Verdict::Revert(args) => failed(
                task.deep_view(),
                state.deep_view(),
                now_secs,
                now,
            ) && task.fallback is Some && args.deep_view() == endpoint_args(
                task.interface@,
                task.pubkey@,
                task.fallback->0@,
            ),
        },
{
    let current = get_current_endpoint(state, task.pubkey.as_str());
    match &current {
        Some(endpoint) => {
            if !endpoint.as_str().eq(task.new_endpoint.as_str()) {
                return Verdict::Drop;
            }
        },
        None => {
            return Verdict::Drop;
        },
    }
    if has_recent_handshake(state, task.pubkey.as_str(), HANDSHAKE_MAX_AGE_SECS, now_secs) {
        return Verdict::Drop;
    }
    if has_elapsed(task.start, now, task.timeout_secs) {
        return match &task.fallback {
            Some(fallback) => Verdict::Revert(
                update_wg_endpoint(
                    task.interface.as_str(),
                    task.pubkey.as_str(),
                    fallback.as_str(),
                ),
            ),
            None => Verdict::Drop,
        };
    }
    Verdict::Keep
}

/// Looks at the switches that have yet to prove themselves: those that are
/// decided leave `tasks`. Hands back the arguments of `wg` that take the
/// failed ones back.
pub fn process_lan_verification_tasks(
    tasks: &mut Vec<LanVerificationTask>,
    state: &WgState,
    now_secs: u64,
    now: u64,
) -> (commands: Vec<Vec<String>>)
    ensures
        final(tasks).deep_view() == kept_tasks(
            old(tasks).deep_view(),
            state.deep_view(),
            now_secs,
            now,
        ),
        commands.deep_view() == reverts(
            old(tasks).deep_view(),
            state.deep_view(),
            now_secs,
            now,
        ),
{
    let mut commands: Vec<Vec<String>> = Vec::new();
    let ghost all = tasks.deep_view();
    let ghost model = state.deep_view();
    let ghost stays = |t: LanTaskModel| undecided(t, model, now_secs, now);
    let ghost mut seen: int = 0;
    let mut i: usize = 0;
    proof {
        assert(all.take(0) == Seq::<LanTaskModel>::empty());
        reveal(Seq::filter);
        assert(all.take(0).filter(stays) + all.skip(0) == all);
    }
    while i < tasks.len()
        invariant
            i <= tasks@.len(),
            0 <= seen <= all.len(),
            model == state.deep_view(),
            stays == (|t: LanTaskModel| undecided(t, model, now_secs, now)),
            i == all.take(seen).filter(stays).len(),
            tasks.deep_view() == all.take(seen).filter(stays) + all.skip(seen),
            commands.deep_view() == reverts(all.take(seen), model, now_secs, now),
        decreases all.len() - seen,
    {
        let ghost task = all[seen];
        proof {
            assert(tasks@.len() == tasks.deep_view().len());
            assert(tasks.deep_view()[i as int] == task);
            assert(tasks@[i as int].deep_view() == task);
            assert(all.take(seen + 1) == all.take(seen).push(task));
            assert(all.take(seen + 1).drop_last() == all.take(seen));
            lemma_filter_push(all.take(seen), stays, task);
        }
        let ghost kept = all.take(seen).filter(stays);
        match judge(&tasks[i], state, now_secs, now) {
            Verdict::Keep => {
                i = i + 1;
                assert(kept.push(task) + all.skip(seen + 1) == kept + all.skip(seen));
            },
            Verdict::Drop => {
                take_out(tasks, i);
                assert((kept + all.skip(seen)).remove(i as int) == kept + all.skip(seen + 1));
            },
            Verdict::Revert(args) => {
                take_out(tasks, i);
                put(&mut commands, args);
                assert((kept + all.skip(seen)).remove(i as int) == kept + all.skip(seen + 1));
            },
        }
        proof {
            seen = seen + 1;
        }
    }
    proof {
        assert(tasks@.len() == tasks.deep_view().len());
        assert(seen == all.len());
        assert(all.take(seen) == all);
        assert(tasks.deep_view() == all.filter(stays));
    }
    commands
}

// ---------- what holds of the switches ----------

/// A switch that brings no handshake in time is taken back: the peer gets the
/// endpoint again that it had, and the switch is not looked at any more.
pub proof fn law_failed_switch_is_taken_back(
    tasks: Seq<LanTaskModel>,
    state: WgStateModel,
    now_secs: u64,
    now: u64,
    i: int,
)
    requires
        0 <= i < tasks.len(),
        failed(tasks[i], state, now_secs, now),
        tasks[i].fallback is Some,
    ensures
        reverts(tasks, state, now_secs, now).contains(
            endpoint_args(tasks[i].interface, tasks[i].pubkey, tasks[i].fallback->0),
        ),
        !kept_tasks(tasks, state, now_secs, now).contains(tasks[i]),
    decreases tasks.len(),
{
    let all = reverts(tasks, state, now_secs, now);
    let before = reverts(tasks.drop_last(), state, now_secs, now);
    let args = endpoint_args(tasks[i].interface, tasks[i].pubkey, tasks[i].fallback->0);
    if i == tasks.len() - 1 {
        assert(all == before.push(args));
        assert(all[before.len() as int] == args);
    } else {
        law_failed_switch_is_taken_back(tasks.drop_last(), state, now_secs, now, i);
        let k = choose|k: int| 0 <= k < before.len() && before[k] == args;
        assert(all[k] == args);
    }
    lemma_filter_contains(
        tasks,
        |t: LanTaskModel| undecided(t, state, now_secs, now),
        tasks[i],
    );
}

/// From the try to the end, for both families of addresses: a peer is switched
/// to the endpoint `ip` and `port` of its own, the interface shows the peer
/// there, no handshake comes, and the time is up. Then the peer gets the
/// endpoint again that it had, and the switch is not looked at any more.
pub proof fn law_switch_without_handshake_is_undone(
    attempts: Entries<u64>,
    tasks: Seq<LanTaskModel>,
    interface: Text,
    pubkey: Text,
    local_endpoints: Seq<Text>,
    lan: LanModel,
    ip: Ip,
    port: u16,
    before: WgStateModel,
    tried: u64,
    wait_secs: u64,
    switched: u64,
    after: WgStateModel,
    now_secs: u64,
    now: u64,
)
    requires
        lan.enabled,
        !tried_lately(attempts, pubkey, tried),
        first_local(local_endpoints, lan.nets) == Some((ip, port)),
        endpoint_of(before, pubkey) is Some,
        endpoint_of(before, pubkey) != Some(endpoint_text(ip, port)),
        endpoint_of(after, pubkey) == Some(endpoint_text(ip, port)),
        !recent(after, pubkey, HANDSHAKE_MAX_AGE_SECS, now_secs),
        elapsed(switched, now) >= wait_secs * NANOS_PER_SEC,
    ensures
        switch_target(attempts, pubkey, local_endpoints, lan, tried) == Some(
            endpoint_text(ip, port),
        ),
        ({
            let target = switch_target(attempts, pubkey, local_endpoints, lan, tried)->0;
            let task = switch_task(interface, pubkey, target, before, wait_secs, switched);
            let all = tasks.push(task);
            &&& reverts(all, after, now_secs, now).contains(
                endpoint_args(interface, pubkey, endpoint_of(before, pubkey)->0),
            )
            &&& !kept_tasks(all, after, now_secs, now).contains(task)
        }),
{
    let target = switch_target(attempts, pubkey, local_endpoints, lan, tried)->0;
    let task = switch_task(interface, pubkey, target, before, wait_secs, switched);
    let all = tasks.push(task);
    assert(all[tasks.len() as int] == task);
    assert(failed(task, after, now_secs, now));
    law_failed_switch_is_taken_back(all, after, now_secs, now, tasks.len() as int);
}

/// A switch that brought a handshake is left as it is and not looked at any
/// more: it is neither taken back nor kept.
pub proof fn law_confirmed_switch_stays(
    task: LanTaskModel,
    state: WgStateModel,
    now_secs: u64,
    now: u64,
)
    requires
        recent(state, task.pubkey, HANDSHAKE_MAX_AGE_SECS, now_secs),
    ensures
        !failed(task, state, now_secs, now),
        !undecided(task, state, now_secs, now),
{
}

/// No switch is looked at for longer than its time.
pub proof fn law_every_switch_is_decided(
    task: LanTaskModel,
    state: WgStateModel,
    now_secs: u64,
    now: u64,
)
    requires
        elapsed(task.start, now) >= task.timeout_secs * NANOS_PER_SEC,
    ensures
        !undecided(task, state, now_secs, now),
{
}

/// Where switching is off, no peer is switched, and no endpoint is kept because
/// it is local.
pub proof fn law_off_means_off(
    attempts: Entries<u64>,
    state: WgStateModel,
    pubkey: Text,
    wanted: Option<Text>,
    local_endpoints: Seq<Text>,
    lan: LanModel,
    now_secs: u64,
    now: u64,
)
    requires
        !lan.enabled,
    ensures
        switch_target(attempts, pubkey, local_endpoints, lan, now) is None,
        preserved_endpoint(state, pubkey, wanted, lan, now_secs) == wanted,
        !lan_peer(state, lan),
{
}

/// After a try a peer is not tried again for `MIN_LAN_RETRY_INTERVAL_SECS`.
pub proof fn law_tries_are_spaced(
    attempts: Entries<u64>,
    pubkey: Text,
    local_endpoints: Seq<Text>,
    lan: LanModel,
    tried: u64,
    now: u64,
)
    requires
        tried <= now,
        now - tried < MIN_LAN_RETRY_INTERVAL_SECS * NANOS_PER_SEC,
    ensures
        switch_target(attempts.insert(pubkey, tried), pubkey, local_endpoints, lan, now) is None,
{
}

/// A local endpoint that is in use and works is kept, whatever is wanted.
pub proof fn law_working_local_endpoint_is_kept(
    state: WgStateModel,
    pubkey: Text,
    wanted: Option<Text>,
    lan: LanModel,
    now_secs: u64,
)
    requires
        endpoint_of(state, pubkey) matches Some(current) && lan_active(
            state,
            pubkey,
            current,
            lan,
            now_secs,
        ),
    ensures
        preserved_endpoint(state, pubkey, wanted, lan, now_secs) == endpoint_of(state, pubkey),
{
}

/// A local endpoint works exactly where switching is on, its address lies in a
/// local network, and the peer shook hands at most 20 seconds ago.
pub proof fn law_local_endpoint_works(
    state: WgStateModel,
    pubkey: Text,
    endpoint: Text,
    lan: LanModel,
    now_secs: u64,
)
    ensures
        lan_active(state, pubkey, endpoint, lan, now_secs) <==> {
            &&& lan.enabled
            &&& endpoint_addr(endpoint) matches Some((ip, _))
            &&& exists|i: int| 0 <= i < lan.nets.len() && in_net(#[trigger] lan.nets[i], ip)
            &&& state.peers.has(pubkey)
            &&& state.peers.map[pubkey].latest_handshake matches Some(at)
            &&& at + 20 >= now_secs
        },
{
}

/// An endpoint that is wanted is configured, unless one that is local and
/// works is in use: in particular where the peer is not there or has none,
/// where switching is off, and where it has not shaken hands for 20 seconds.
pub proof fn law_wanted_endpoint_is_configured(
    state: WgStateModel,
    pubkey: Text,
    wanted: Option<Text>,
    lan: LanModel,
    now_secs: u64,
)
    ensures
        ({
            let endpoint = preserved_endpoint(state, pubkey, wanted, lan, now_secs);
            &&& !state.peers.has(pubkey) ==> endpoint == wanted
            &&& state.peers.has(pubkey) && state.peers.map[pubkey].endpoint is None ==> endpoint
                == wanted
            &&& state.peers.has(pubkey) && state.peers.map[pubkey].latest_handshake is None
                ==> endpoint == wanted
            &&& state.peers.has(pubkey) && (state.peers.map[pubkey].latest_handshake matches Some(
                at,
            ) && at + 20 < now_secs) ==> endpoint == wanted
            &&& !lan.enabled ==> endpoint == wanted
            &&& endpoint == wanted || state.peers.has(pubkey) && endpoint
                == state.peers.map[pubkey].endpoint
            &&& endpoint_of(state, pubkey) matches Some(current) ==> (!endpoint_local(
                lan.nets,
                current,
            ) ==> endpoint == wanted)
        }),
{
}

/// A peer is reached over the local network as soon as one of the peers has a
/// local endpoint, whatever the others have; and else none is.
pub proof fn law_one_local_peer_is_enough(state: WgStateModel, lan: LanModel, pubkey: Text)
    ensures
        lan.enabled && state.peers.has(pubkey) && (state.peers.map[pubkey].endpoint matches Some(
            endpoint,
        ) && endpoint_local(lan.nets, endpoint)) ==> lan_peer(state, lan),
        (forall|k: Text|
            #![trigger state.peers.has(k)]
            state.peers.has(k) ==> (state.peers.map[k].endpoint matches Some(endpoint)
                ==> !endpoint_local(lan.nets, endpoint))) ==> !lan_peer(state, lan),
{
}

/// A peer with a local endpoint is switched to the first one, where switching
/// is on and the peer has not been tried in the last two minutes.
pub proof fn law_local_endpoint_is_tried(
    attempts: Entries<u64>,
    pubkey: Text,
    local_endpoints: Seq<Text>,
    lan: LanModel,
    now: u64,
    i: int,
    ip: Ip,
    port: u16,
)
    requires
        lan.enabled,
        attempts.has(pubkey) ==> attempts.map[pubkey] + 120 * 1_000_000_000 <= now,
        0 <= i < local_endpoints.len(),
        endpoint_addr(local_endpoints[i]) == Some((ip, port)),
        endpoint_local(lan.nets, local_endpoints[i]),
        forall|j: int| 0 <= j < i ==> !endpoint_local(lan.nets, #[trigger] local_endpoints[j]),
    ensures
        switch_target(attempts, pubkey, local_endpoints, lan, now) == Some(
            endpoint_text(ip, port),
        ),
{
    law_first_local_endpoint_is_found(local_endpoints, lan.nets, i);
}

/// A peer is not switched where none of its endpoints is local, nor where it
/// was tried in the last two minutes.
pub proof fn law_no_switch_without_reason(
    attempts: Entries<u64>,
    pubkey: Text,
    local_endpoints: Seq<Text>,
    lan: LanModel,
    now: u64,
)
    ensures
        (forall|j: int|
            0 <= j < local_endpoints.len() ==> !endpoint_local(
                lan.nets,
                #[trigger] local_endpoints[j],
            )) ==> switch_target(attempts, pubkey, local_endpoints, lan, now) is None,
        attempts.has(pubkey) && attempts.map[pubkey] + 120 * 1_000_000_000 > now
            ==> switch_target(attempts, pubkey, local_endpoints, lan, now) is None,
{
    law_same_lan_is_local(local_endpoints, lan.nets);
    if let Some((ip, port)) = first_local(local_endpoints, lan.nets) {
        let i = choose|i: int|
            0 <= i < local_endpoints.len() && endpoint_addr(#[trigger] local_endpoints[i]) == Some(
                (ip, port),
            );
        assert(endpoint_local(lan.nets, local_endpoints[i]));
    }
}

/// A switch is remembered with the peer, the endpoint it goes to, the one it
/// comes from as the way back, and the time it has.
pub proof fn law_switch_remembers_the_way_back(
    interface: Text,
    pubkey: Text,
    target: Text,
    state: WgStateModel,
    wait_secs: u64,
    now: u64,
)
    ensures
        ({
            let task = switch_task(interface, pubkey, target, state, wait_secs, now);
            &&& task.interface == interface
            &&& task.pubkey == pubkey
            &&& task.new_endpoint == target
            &&& state.peers.has(pubkey) ==> task.fallback == state.peers.map[pubkey].endpoint
            &&& !state.peers.has(pubkey) ==> task.fallback is None
            &&& task.start == now
            &&& task.timeout_secs == wait_secs
        }),
        state.peers.has(pubkey) ==> allowed_of(state, pubkey)
            == state.peers.map[pubkey].allowed_ips,
        !state.peers.has(pubkey) ==> allowed_of(state, pubkey).len() == 0,
{
}

/// A switch is looked at again exactly where the peer is still at the new
/// endpoint, has not shaken hands in the last 20 seconds, and has time left.
pub proof fn law_switch_is_given_its_time(
    tasks: Seq<LanTaskModel>,
    state: WgStateModel,
    now_secs: u64,
    now: u64,
    task: LanTaskModel,
)
    requires
        task.start <= now,
    ensures
        kept_tasks(tasks, state, now_secs, now).contains(task) <==> {
            &&& tasks.contains(task)
            &&& state.peers.has(task.pubkey)
            &&& state.peers.map[task.pubkey].endpoint == Some(task.new_endpoint)
            &&& state.peers.map[task.pubkey].latest_handshake matches Some(at) ==> at + 20
                < now_secs
            &&& now - task.start < task.timeout_secs * 1_000_000_000
        },
{
    lemma_filter_contains(
        tasks,
        |t: LanTaskModel| undecided(t, state, now_secs, now),
        task,
    );
}

/// A switch is taken back where the peer is still at the new endpoint, has not
/// shaken hands in the last 20 seconds, has no time left, and there is a way
/// back.
pub proof fn law_late_switch_is_taken_back(
    tasks: Seq<LanTaskModel>,
    state: WgStateModel,
    now_secs: u64,
    now: u64,
    i: int,
    fallback: Text,
)
    requires
        0 <= i < tasks.len(),
        tasks[i].start <= now,
        now - tasks[i].start >= tasks[i].timeout_secs * 1_000_000_000,
        tasks[i].fallback == Some(fallback),
        state.peers.has(tasks[i].pubkey),
        state.peers.map[tasks[i].pubkey].endpoint == Some(tasks[i].new_endpoint),
        state.peers.map[tasks[i].pubkey].latest_handshake matches Some(at) ==> at + 20 < now_secs,
    ensures
        reverts(tasks, state, now_secs, now).contains(
            seq!["set"@, tasks[i].interface, "peer"@, tasks[i].pubkey, "endpoint"@, fallback],
        ),
{
    law_failed_switch_is_taken_back(tasks, state, now_secs, now, i);
}

/// Nothing else is taken back: every command is for a switch whose peer is
/// still at the new endpoint, has not shaken hands in the last 20 seconds, and
/// has no time left, and leads to where the peer came from.
pub proof fn law_only_late_switches_are_taken_back(
    tasks: Seq<LanTaskModel>,
    state: WgStateModel,
    now_secs: u64,
    now: u64,
    args: Seq<Text>,
)
    requires
        reverts(tasks, state, now_secs, now).contains(args),
    ensures
        exists|i: int|
            0 <= i < tasks.len() && {
                let task = #[trigger] tasks[i];
                &&& state.peers.has(task.pubkey)
                &&& state.peers.map[task.pubkey].endpoint == Some(task.new_endpoint)
                &&& state.peers.map[task.pubkey].latest_handshake matches Some(at) ==> at + 20
                    < now_secs
                &&& task.start + task.timeout_secs * 1_000_000_000 <= now || task.timeout_secs == 0
                &&& task.fallback matches Some(fallback)
                &&& args == seq![
                    "set"@,
                    task.interface,
                    "peer"@,
                    task.pubkey,
                    "endpoint"@,
                    fallback,
                ]
            },
    decreases tasks.len(),
{
    if tasks.len() > 0 {
        let front = tasks.drop_last();
        let task = tasks.last();
        let before = reverts(front, state, now_secs, now);
        let all = reverts(tasks, state, now_secs, now);
        let k = choose|k: int| 0 <= k < all.len() && all[k] == args;
        if k < before.len() {
            assert(before[k] == args);
            law_only_late_switches_are_taken_back(front, state, now_secs, now, args);
            assert(forall|i: int| 0 <= i < front.len() ==> front[i] == #[trigger] tasks[i]);
            assert(forall|i: int| 0 <= i < front.len() ==> #[trigger] front[i] == tasks[i]);
        } else {
            assert(tasks[tasks.len() - 1] == task);
            assert(failed(task, state, now_secs, now));
        }
    }
}

} // verus!
