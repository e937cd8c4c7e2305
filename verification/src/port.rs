//! Changes of the port that the interface listens on.
use std::collections::VecDeque;
use vstd::prelude::*;

use crate::clock::{elapsed, has_elapsed, NANOS_PER_SEC};
use crate::foreign::random_between;
use crate::lan::{has_lan_peer, lan_peer, Lan, LanModel};
use crate::state::{has_recent_handshake, recent, WgState, WgStateModel};
use crate::text::{decimal, decimal_text, law_number_reads_decimal, number, owned, Text};

verus! {

/// The seconds since the last handshake after which a peer counts as lost.
pub const NO_HANDSHAKE_THRESHOLD: u64 = 180;

/// The seconds over which changes are counted.
pub const PORT_CHANGE_LIMIT_WINDOW_SECS: u64 = 3600;

/// How many changes there may be in that time.
pub const MAX_PORT_CHANGES_PER_WINDOW: usize = 3;

/// The seconds that have to lie between two changes: an even share of the window.
pub const PORT_CHANGE_SPACING_SECS: u64 = 1200;

/// A peer shook hands lately.
pub open spec fn any_recent(state: WgStateModel, now_secs: u64) -> bool {
    exists|i: int|
        0 <= i < state.peers.keys.len() && recent(
            state,
            #[trigger] state.peers.keys[i],
            NO_HANDSHAKE_THRESHOLD,
            now_secs,
        )
}

/// There is reason to change the port: there are peers, and, unless it is
/// forced, all of them are lost and none is reached through the local network.
pub open spec fn wanted(force: bool, state: WgStateModel, lan: LanModel, now_secs: u64) -> bool {
    state.peers.keys.len() > 0 && (force || !any_recent(state, now_secs) && !lan_peer(state, lan))
}

/// The changes that still count at `now`: those at the front that are too old
/// are left out.
pub open spec fn counting(times: Seq<u64>, now: u64) -> Seq<u64>
    decreases times.len(),
{
    if times.len() > 0 && elapsed(times.first(), now) > PORT_CHANGE_LIMIT_WINDOW_SECS
        * NANOS_PER_SEC {
        counting(times.drop_first(), now)
    } else {
        times
    }
}

/// A change is within the limits: fewer than the most there may be still
/// count, and the last one is long enough ago.
pub open spec fn within_limits(times: Seq<u64>, now: u64) -> bool {
    let left = counting(times, now);
    left.len() < MAX_PORT_CHANGES_PER_WINDOW && (left.len() > 0 ==> elapsed(left.last(), now)
        >= PORT_CHANGE_SPACING_SECS * NANOS_PER_SEC)
}

/// The times of the changes, the first one first.
pub struct PortHistory {
    pub times: VecDeque<u64>,
}

impl View for PortHistory {
    type V = Seq<u64>;

    open spec fn view(&self) -> Seq<u64> {
        self.times@
    }
}

impl PortHistory {
    /// No changes yet.
    pub fn new() -> (history: PortHistory)
        ensures
            history@ == Seq::<u64>::empty(),
    {
        PortHistory { times: VecDeque::new() }
    }

    /// Drops the changes at the front that no longer count.
    fn prune(&mut self, now: u64)
        ensures
            final(self)@ == counting(old(self)@, now),
    {
        let ghost all = self@;
        loop
            invariant_except_break
                counting(self@, now) == counting(all, now),
            ensures
                self@ == counting(all, now),
            decreases self@.len(),
        {
            match self.times.pop_front() {
                Some(first) => {
                    let ghost rest = self@;
                    if is_past(first, now) {
                        assert(seq![first] + rest == rest.insert(0, first));
                        assert(rest.insert(0, first).drop_first() == rest);
                    } else {
                        self.times.push_front(first);
                        break;
                    }
                },
                None => {
                    break;
                },
            }
        }
    }

    /// Notes that the port was changed at `now`.
    pub fn record(&mut self, now: u64)
        ensures
            final(self)@ == old(self)@.push(now),
    {
        self.times.push_back(now);
    }
}

/// Whether a change at that time no longer counts.
fn is_past(at: u64, now: u64) -> (answer: bool)
    ensures
        answer == (elapsed(at, now) > PORT_CHANGE_LIMIT_WINDOW_SECS * NANOS_PER_SEC),
{
    now > at && now - at > PORT_CHANGE_LIMIT_WINDOW_SECS * NANOS_PER_SEC
}

/// Whether a peer shook hands lately.
fn has_any_recent(state: &WgState, now_secs: u64) -> (answer: bool)
    ensures
        answer == any_recent(state.deep_view(), now_secs),
{
    let ghost keys = state.deep_view().peers.keys;
    let mut i: usize = 0;
    let n: usize = state.peers.len();
    while i < n
        invariant
            i <= n == keys.len(),
            keys == state.deep_view().peers.keys,
            forall|j: int|
                0 <= j < i ==> !recent(
                    state.deep_view(),
                    #[trigger] keys[j],
                    NO_HANDSHAKE_THRESHOLD,
                    now_secs,
                ),
        decreases n - i,
    {
        if has_recent_handshake(
            state,
            state.peers.key_at(i).as_str(),
            NO_HANDSHAKE_THRESHOLD,
            now_secs,
        ) {
            assert(recent(state.deep_view(), keys[i as int], NO_HANDSHAKE_THRESHOLD, now_secs));
            return true;
        }
        i = i + 1;
    }
    false
}

/// Whether the port is to be changed. Where there is reason to, the changes
/// that no longer count are dropped from the history.
pub fn port_change_due(
    force: bool,
    state: &WgState,
    lan: &Lan,
    history: &mut PortHistory,
    now_secs: u64,
    now: u64,
) -> (due: bool)
    ensures
        due == (wanted(force, state.deep_view(), lan.deep_view(), now_secs) && within_limits(
            old(history)@,
            now,
        )),
        final(history)@ == if wanted(force, state.deep_view(), lan.deep_view(), now_secs) {
            counting(old(history)@, now)
        } else {
            old(history)@
        },
{
    if state.peers.len() == 0 {
        return false;
    }
    if !force && (has_any_recent(state, now_secs) || has_lan_peer(state, lan)) {
        return false;
    }
    history.prune(now);
    let n: usize = history.times.len();
    if n >= MAX_PORT_CHANGES_PER_WINDOW {
        return false;
    }
    n == 0 || has_elapsed(history.times[n - 1], now, PORT_CHANGE_SPACING_SECS)
}

/// The arguments of `wg` that set the port.
pub open spec fn port_args(interface: Text, port: u16) -> Seq<Text> {
    seq!["set"@, interface, "listen-port"@, decimal(port as nat)]
}

/// The arguments of `wg` that set the port.
pub fn listen_port_args(interface: &str, port: u16) -> (args: Vec<String>)
    ensures
        args.deep_view() == port_args(interface@, port),
{
    let digits = decimal_text(port as u64);
    owned(vec!["set", interface, "listen-port", digits.as_str()])
}

/// A new port, drawn from `min` to `max`, where the port is to be changed.
/// Which port of these it is, chance decides. The history is to be told when
/// the change went well.
pub fn try_change_port(
    force: bool,
    state: &WgState,
    lan: &Lan,
    history: &mut PortHistory,
    min: u16,
    max: u16,
    now_secs: u64,
    now: u64,
) -> (port: Option<u16>)
    requires
        min <= max,
    ensures
        port is Some <==> wanted(force, state.deep_view(), lan.deep_view(), now_secs)
            && within_limits(old(history)@, now),
        port matches Some(p) ==> min <= p <= max,
        final(history)@ == if wanted(force, state.deep_view(), lan.deep_view(), now_secs) {
            counting(old(history)@, now)
        } else {
            old(history)@
        },
{
    if port_change_due(force, state, lan, history, now_secs, now) {
        Some(random_between(min, max))
    } else {
        None
    }
}

/// A new port where the network is lost: all peers are, and none is reached
/// through the local network.
pub fn check_and_maybe_change_listen_port(
    state: &WgState,
    lan: &Lan,
    history: &mut PortHistory,
    min: u16,
    max: u16,
    now_secs: u64,
    now: u64,
) -> (port: Option<u16>)
    requires
        min <= max,
    ensures
        port is Some <==> wanted(false, state.deep_view(), lan.deep_view(), now_secs)
            && within_limits(old(history)@, now),
        port matches Some(p) ==> min <= p <= max,
        final(history)@ == if wanted(false, state.deep_view(), lan.deep_view(), now_secs) {
            counting(old(history)@, now)
        } else {
            old(history)@
        },
{
    try_change_port(false, state, lan, history, min, max, now_secs, now)
}

// ---------- what holds of the changes ----------

/// The changes lie so far apart, and there are not more of them than may be.
pub open spec fn spaced(times: Seq<u64>) -> bool {
    &&& times.len() <= MAX_PORT_CHANGES_PER_WINDOW
    &&& forall|i: int, j: int|
        0 <= i < j < times.len() ==> #[trigger] times[j] - #[trigger] times[i]
            >= PORT_CHANGE_SPACING_SECS * NANOS_PER_SEC
}

/// However often a change is asked for, the changes stay at least
/// `PORT_CHANGE_SPACING_SECS` apart, and never more than
/// `MAX_PORT_CHANGES_PER_WINDOW` of them count.
pub proof fn law_changes_are_limited(times: Seq<u64>, now: u64)
    requires
        spaced(times),
    ensures
        spaced(counting(times, now)),
        within_limits(times, now) ==> spaced(counting(times, now).push(now)),
    decreases times.len(),
{
    if times.len() > 0 && elapsed(times.first(), now) > PORT_CHANGE_LIMIT_WINDOW_SECS
        * NANOS_PER_SEC {
        let rest = times.drop_first();
        assert(spaced(rest)) by {
            assert forall|i: int, j: int| 0 <= i < j < rest.len() implies #[trigger] rest[j]
                - #[trigger] rest[i] >= PORT_CHANGE_SPACING_SECS * NANOS_PER_SEC by {
                assert(times[j + 1] - times[i + 1] >= PORT_CHANGE_SPACING_SECS * NANOS_PER_SEC);
            }
        }
        law_changes_are_limited(rest, now);
    } else if within_limits(times, now) {
        let more = times.push(now);
        assert forall|i: int, j: int| 0 <= i < j < more.len() implies #[trigger] more[j]
            - #[trigger] more[i] >= PORT_CHANGE_SPACING_SECS * NANOS_PER_SEC by {
            if j == times.len() {
                assert(now - times.last() >= PORT_CHANGE_SPACING_SECS * NANOS_PER_SEC);
                if i < times.len() - 1 {
                    assert(times[times.len() - 1] - times[i] >= PORT_CHANGE_SPACING_SECS
                        * NANOS_PER_SEC);
                }
            } else {
                assert(times[j] - times[i] >= PORT_CHANGE_SPACING_SECS * NANOS_PER_SEC);
            }
        }
    }
}

/// Without peers the port never changes; with one that is there, only by force.
pub proof fn law_no_needless_change(force: bool, state: WgStateModel, lan: LanModel, now_secs: u64)
    ensures
        state.peers.keys.len() == 0 ==> !wanted(force, state, lan, now_secs),
        any_recent(state, now_secs) || lan_peer(state, lan) ==> !wanted(false, state, lan, now_secs),
        state.peers.keys.len() > 0 ==> wanted(true, state, lan, now_secs),
{
}

/// A call of `try_change_port`, and whether the command went well where a port
/// was drawn.
#[verifier::ext_equal]
pub struct PortCall {
    pub force: bool,
    pub state: WgStateModel,
    pub lan: LanModel,
    pub now_secs: u64,
    pub now: u64,
    pub succeeded: bool,
}

/// A port is drawn in that call.
pub open spec fn draws(times: Seq<u64>, call: PortCall) -> bool {
    wanted(call.force, call.state, call.lan, call.now_secs) && within_limits(times, call.now)
}

/// The history after a call: what `try_change_port` leaves of it, and the time
/// of the call where the port was changed.
pub open spec fn after_call(times: Seq<u64>, call: PortCall) -> Seq<u64> {
    let left = if wanted(call.force, call.state, call.lan, call.now_secs) {
        counting(times, call.now)
    } else {
        times
    };
    if draws(times, call) && call.succeeded {
        left.push(call.now)
    } else {
        left
    }
}

/// The history after those calls.
pub open spec fn history_after(calls: Seq<PortCall>) -> Seq<u64>
    decreases calls.len(),
{
    if calls.len() == 0 {
        Seq::empty()
    } else {
        after_call(history_after(calls.drop_last()), calls.last())
    }
}

/// The times at which the port was changed in those calls.
pub open spec fn change_times(calls: Seq<PortCall>) -> Seq<u64>
    decreases calls.len(),
{
    if calls.len() == 0 {
        Seq::empty()
    } else {
        let before = change_times(calls.drop_last());
        if draws(history_after(calls.drop_last()), calls.last()) && calls.last().succeeded {
            before.push(calls.last().now)
        } else {
            before
        }
    }
}

/// The clock does not run back from call to call.
pub open spec fn in_time(calls: Seq<PortCall>) -> bool {
    forall|i: int, j: int|
        0 <= i <= j < calls.len() ==> (#[trigger] calls[i]).now <= (#[trigger] calls[j]).now
}

/// The times lie at least `secs` seconds apart.
pub open spec fn apart(times: Seq<u64>, secs: u64) -> bool {
    forall|i: int, j: int|
        0 <= i < j < times.len() ==> #[trigger] times[j] - #[trigger] times[i] >= secs
            * NANOS_PER_SEC
}

/// Over any row of calls, forced or not, in whatever states: the changes of the
/// port lie at least `PORT_CHANGE_SPACING_SECS` apart, no more than
/// `MAX_PORT_CHANGES_PER_WINDOW` of them fall into any
/// `PORT_CHANGE_LIMIT_WINDOW_SECS`, and the history is in ascending order and
/// holds no more than that. A command that failed does not count.
pub proof fn law_changes_are_limited_for_ever(calls: Seq<PortCall>)
    requires
        in_time(calls),
    ensures
        apart(change_times(calls), PORT_CHANGE_SPACING_SECS),
        forall|i: int|
            0 <= i < change_times(calls).len() - MAX_PORT_CHANGES_PER_WINDOW
                ==> #[trigger] change_times(calls)[i] + PORT_CHANGE_LIMIT_WINDOW_SECS
                * NANOS_PER_SEC < change_times(calls)[i + MAX_PORT_CHANGES_PER_WINDOW],
        spaced(history_after(calls)),
{
    lemma_changes(calls);
}

/// How many changes no longer count after those calls.
pub open spec fn forgotten(calls: Seq<PortCall>) -> int {
    change_times(calls).len() - history_after(calls).len()
}

/// What holds after any row of calls: the history is the end of all changes,
/// and what it no longer holds is too old to count.
proof fn lemma_changes(calls: Seq<PortCall>)
    requires
        in_time(calls),
    ensures
        ({
            let all = change_times(calls);
            &&& 0 <= forgotten(calls)
            &&& history_after(calls) == all.skip(forgotten(calls))
            &&& forall|i: int|
                0 <= i < forgotten(calls) ==> #[trigger] all[i] + PORT_CHANGE_LIMIT_WINDOW_SECS
                    * NANOS_PER_SEC < calls.last().now
            &&& apart(all, PORT_CHANGE_SPACING_SECS)
            &&& forall|i: int|
                0 <= i < all.len() - MAX_PORT_CHANGES_PER_WINDOW ==> #[trigger] all[i]
                    + PORT_CHANGE_LIMIT_WINDOW_SECS * NANOS_PER_SEC < all[i
                    + MAX_PORT_CHANGES_PER_WINDOW]
            &&& spaced(history_after(calls))
        }),
    decreases calls.len(),
{
    if calls.len() > 0 {
        let front = calls.drop_last();
        let call = calls.last();
        assert(in_time(front)) by {
            assert forall|i: int, j: int| 0 <= i <= j < front.len() implies (
            #[trigger] front[i]).now <= (#[trigger] front[j]).now by {
                assert(calls[i].now <= calls[j].now);
            }
        }
        lemma_changes(front);
        let before = change_times(front);
        let history = history_after(front);
        let k = forgotten(front);
        if front.len() > 0 {
            assert(calls[front.len() - 1].now <= calls[front.len() as int].now);
            assert(front.last().now <= call.now);
        }
        law_changes_are_limited(history, call.now);
        let left = counting(history, call.now);
        lemma_counting(history, call.now);
        let dropped = history.len() - left.len();
        assert(left == before.skip(k + dropped));
        assert forall|i: int| 0 <= i < k + dropped implies #[trigger] before[i]
            + PORT_CHANGE_LIMIT_WINDOW_SECS * NANOS_PER_SEC < call.now by {
            if i >= k {
                assert(history[i - k] == before[i]);
            }
        }
        let all = change_times(calls);
        if draws(history, call) && call.succeeded {
            assert(all == before.push(call.now));
            assert(history_after(calls) == left.push(call.now));
            assert(forgotten(calls) == k + dropped);
            assert(history_after(calls) == all.skip(k + dropped));
            assert forall|i: int, j: int| 0 <= i < j < all.len() implies #[trigger] all[j]
                - #[trigger] all[i] >= PORT_CHANGE_SPACING_SECS * NANOS_PER_SEC by {
                if j == before.len() {
                    if i >= k + dropped {
                        let h = history_after(calls);
                        assert(h[i - k - dropped] == all[i]);
                        assert(h[h.len() - 1] == call.now);
                    } else {
                        assert(before[i] == all[i]);
                    }
                } else {
                    assert(before[j] == all[j] && before[i] == all[i]);
                }
            }
            assert forall|i: int| 0 <= i < all.len() - MAX_PORT_CHANGES_PER_WINDOW implies
                #[trigger] all[i] + PORT_CHANGE_LIMIT_WINDOW_SECS * NANOS_PER_SEC < all[i
                + MAX_PORT_CHANGES_PER_WINDOW] by {
                assert(before[i] == all[i]);
                if i + MAX_PORT_CHANGES_PER_WINDOW == before.len() {
                    assert(i < k + dropped);
                } else {
                    assert(before[i + MAX_PORT_CHANGES_PER_WINDOW] == all[i
                        + MAX_PORT_CHANGES_PER_WINDOW]);
                }
            }
        } else {
            assert(all == before);
        }
    }
}

/// What still counts is the end of the history, and the rest is too old.
proof fn lemma_counting(times: Seq<u64>, now: u64)
    ensures
        ({
            let left = counting(times, now);
            let dropped = times.len() - left.len();
            &&& 0 <= dropped
            &&& left == times.skip(dropped)
            &&& forall|i: int|
                0 <= i < dropped ==> #[trigger] times[i] + PORT_CHANGE_LIMIT_WINDOW_SECS
                    * NANOS_PER_SEC < now
        }),
    decreases times.len(),
{
    let left = counting(times, now);
    if times.len() > 0 && elapsed(times.first(), now) > PORT_CHANGE_LIMIT_WINDOW_SECS
        * NANOS_PER_SEC {
        let rest = times.drop_first();
        lemma_counting(rest, now);
        let dropped = times.len() - left.len();
        assert(left == times.skip(dropped));
        assert forall|i: int| 0 <= i < dropped implies #[trigger] times[i]
            + PORT_CHANGE_LIMIT_WINDOW_SECS * NANOS_PER_SEC < now by {
            if i > 0 {
                assert(rest[i - 1] == times[i]);
            }
        }
    } else {
        assert(times.skip(0) == times);
    }
}

// ---------- when the port changes ----------

/// There is reason to change the port, where there are peers, exactly by force
/// or where none of them shook hands in the last 180 seconds and none is
/// reached over the local network.
pub proof fn law_lost_network_is_a_reason(
    force: bool,
    state: WgStateModel,
    lan: LanModel,
    now_secs: u64,
    pubkey: Text,
)
    requires
        state.peers.valid(),
        state.peers.has(pubkey),
    ensures
        force ==> wanted(force, state, lan, now_secs),
        !force && (state.peers.map[pubkey].latest_handshake matches Some(at) && at + 180
            >= now_secs) ==> !wanted(force, state, lan, now_secs),
        !lan_peer(state, lan) && (forall|k: Text|
            #![trigger state.peers.has(k)]
            state.peers.has(k) ==> (state.peers.map[k].latest_handshake matches Some(at) ==> at
                + 180 < now_secs)) ==> wanted(force, state, lan, now_secs),
        !force && lan_peer(state, lan) ==> !wanted(force, state, lan, now_secs),
{
    let keys = state.peers.keys;
    assert(keys.contains(pubkey));
    let i = choose|i: int| 0 <= i < keys.len() && keys[i] == pubkey;
    assert(recent(state, keys[i], NO_HANDSHAKE_THRESHOLD, now_secs) ==> any_recent(
        state,
        now_secs,
    ));
    if any_recent(state, now_secs) {
        let j = choose|j: int|
            0 <= j < keys.len() && recent(
                state,
                #[trigger] keys[j],
                NO_HANDSHAKE_THRESHOLD,
                now_secs,
            );
        assert(state.peers.has(keys[j]));
    }
}

/// The times stand in order.
pub open spec fn ascending(times: Seq<u64>) -> bool {
    forall|i: int, j: int|
        0 <= i <= j < times.len() ==> #[trigger] times[i] <= #[trigger] times[j]
}

/// The first change that still counts is not too old.
proof fn lemma_first_counts(times: Seq<u64>, now: u64)
    ensures
        counting(times, now).len() > 0 ==> elapsed(counting(times, now).first(), now) <= 3600
            * 1_000_000_000,
    decreases times.len(),
{
    if times.len() > 0 && elapsed(times.first(), now) > PORT_CHANGE_LIMIT_WINDOW_SECS
        * NANOS_PER_SEC {
        lemma_first_counts(times.drop_first(), now);
    }
}

/// A change is allowed exactly where the last one is 20 minutes or more ago and
/// fewer than three fell into the last hour.
pub proof fn law_change_is_allowed_in_time(times: Seq<u64>, now: u64)
    requires
        ascending(times),
        times.len() > 0 ==> times.last() <= now,
    ensures
        times.len() == 0 ==> within_limits(times, now),
        times.len() > 0 && now - times.last() < 1200 * 1_000_000_000 ==> !within_limits(times, now),
        times.len() > 0 && now - times.last() >= 1200 * 1_000_000_000 && (times.len() < 3
            || times[times.len() - 3] + 3600 * 1_000_000_000 < now) ==> within_limits(times, now),
        times.len() >= 3 && times[times.len() - 3] + 3600 * 1_000_000_000 >= now
            ==> !within_limits(times, now),
        forall|i: int|
            #![trigger times[i]]
            0 <= i < times.len() ==> (counting(times, now).contains(times[i]) <==> times[i] + 3600
                * 1_000_000_000 >= now),
{
    lemma_counting(times, now);
    lemma_first_counts(times, now);
    let left = counting(times, now);
    let dropped = times.len() - left.len();
    if left.len() > 0 {
        assert(left.first() == times[dropped]);
        assert(left.last() == times.last());
        assert(times[dropped] <= times[times.len() - 1]);
    }
    if times.len() > 0 && dropped == times.len() {
        assert(times[times.len() - 1] + PORT_CHANGE_LIMIT_WINDOW_SECS * NANOS_PER_SEC < now);
    }
    if times.len() >= 3 {
        let third = times.len() - 3;
        if dropped <= third {
            assert(times[dropped] <= times[third]);
        } else {
            assert(times[third] + PORT_CHANGE_LIMIT_WINDOW_SECS * NANOS_PER_SEC < now);
        }
    }
    assert forall|i: int|
        #![trigger times[i]]
        0 <= i < times.len() implies (left.contains(times[i]) <==> times[i] + 3600 * 1_000_000_000
        >= now) by {
        if i >= dropped {
            assert(left[i - dropped] == times[i]);
            assert(times[dropped] <= times[i]);
        }
        if left.contains(times[i]) {
            let k = choose|k: int| 0 <= k < left.len() && left[k] == times[i];
            assert(left[k] == times[k + dropped]);
            assert(times[dropped] <= times[k + dropped]);
        }
    }
}

/// The command that sets the port names the interface, and the port in decimal
/// notation.
pub proof fn law_command_names_the_port(interface: Text, port: u16)
    ensures
        ({
            let args = port_args(interface, port);
            &&& args.len() == 4
            &&& args[0] == "set"@
            &&& args[1] == interface
            &&& args[2] == "listen-port"@
            &&& number(args[3], 65535) == Some(port as nat)
        }),
{
    law_number_reads_decimal(port as nat, 65535);
}

} // verus!
