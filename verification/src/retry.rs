//! Peers that could not be put on the interface and are tried again.
use std::collections::VecDeque;
use vstd::arithmetic::power2::{lemma2_to64, lemma_pow2_pos, lemma_pow2_unfold, pow2};
use vstd::prelude::*;

use crate::clock::{elapsed, has_elapsed, lesser, power_of_two, NANOS_PER_SEC};
use crate::lan::{preserve_lan_endpoint, preserved_endpoint, Lan, LanModel};
use crate::list::put;
use crate::peer::{add_or_update_peer, peer_plan, PeerPlan, PeerPlanModel};
use crate::state::{WgState, WgStateModel};
use crate::text::Text;

verus! {

/// How many tasks may wait for a peer to be put in line.
pub const MAX_RETRY_QUEUE_SIZE: usize = 500;

/// How often one task is tried.
pub const DEFAULT_MAX_RETRY_ATTEMPTS: u32 = 5;

/// A peer to try again.
pub struct RetryTask {
    pub pubkey: String,
    pub endpoint: Option<String>,
    pub allowed_ips: Option<Vec<String>>,
    pub persistent_keepalive: Option<u16>,
    pub preshared_key: Option<String>,
    pub retry_count: u32,
    pub last_attempt: u64,
}

/// What a `RetryTask` says.
#[verifier::ext_equal]
pub struct RetryModel {
    pub pubkey: Text,
    pub endpoint: Option<Text>,
    pub allowed_ips: Option<Seq<Text>>,
    pub persistent_keepalive: Option<u16>,
    pub preshared_key: Option<Text>,
    pub retry_count: u32,
    pub last_attempt: u64,
}

impl DeepView for RetryTask {
    type V = RetryModel;

    open spec fn deep_view(&self) -> RetryModel {
        RetryModel {
            pubkey: self.pubkey@,
            endpoint: self.endpoint.deep_view(),
            allowed_ips: self.allowed_ips.deep_view(),
            persistent_keepalive: self.persistent_keepalive,
            preshared_key: self.preshared_key.deep_view(),
            retry_count: self.retry_count,
            last_attempt: self.last_attempt,
        }
    }
}

/// The seconds to wait after so many attempts: one, doubled with each attempt
/// up to the fourth.
pub open spec fn interval_secs(retry_count: u32) -> nat {
    pow2(lesser(retry_count as nat, 4))
}

impl RetryTask {
    /// A task that has not been tried again yet; the first attempt was at `now`.
    pub fn new(
        pubkey: String,
        endpoint: Option<String>,
        allowed_ips: Option<Vec<String>>,
        persistent_keepalive: Option<u16>,
        preshared_key: Option<String>,
        now: u64,
    ) -> (task: Self)
        ensures
            task == (RetryTask {
                pubkey,
                endpoint,
                allowed_ips,
                persistent_keepalive,
                preshared_key,
                retry_count: 0,
                last_attempt: now,
            }),
    {
        RetryTask {
            pubkey,
            endpoint,
            allowed_ips,
            persistent_keepalive,
            preshared_key,
            retry_count: 0,
            last_attempt: now,
        }
    }

    /// The seconds to wait before the next attempt.
    pub fn next_interval(&self) -> (secs: u64)
        ensures
            secs == interval_secs(self.retry_count),
    {
        if self.retry_count < 4 {
            power_of_two(self.retry_count)
        } else {
            power_of_two(4)
        }
    }
}

/// The tasks in line. None of them has had its last attempt.
pub struct RetryQueue {
    tasks: VecDeque<RetryTask>,
}

impl DeepView for RetryQueue {
    type V = Seq<RetryModel>;

    closed spec fn deep_view(&self) -> Seq<RetryModel> {
        self.tasks.deep_view()
    }
}

/// None of the tasks has had its last attempt.
pub open spec fn attempts_left(tasks: Seq<RetryModel>) -> bool {
    forall|i: int| 0 <= i < tasks.len() ==> (#[trigger] tasks[i]).retry_count
        < DEFAULT_MAX_RETRY_ATTEMPTS
}

/// The line with a task at its end, where there is room for it.
pub open spec fn enqueued(tasks: Seq<RetryModel>, task: RetryModel) -> Seq<RetryModel> {
    if tasks.len() < MAX_RETRY_QUEUE_SIZE {
        tasks.push(task)
    } else {
        tasks
    }
}

/// The wait of a task is over.
pub open spec fn due(task: RetryModel, now: u64) -> bool {
    elapsed(task.last_attempt, now) >= interval_secs(task.retry_count) * NANOS_PER_SEC
}

/// How many tasks at the front of the line are due: those behind one that is
/// not are not looked at.
pub open spec fn due_count(tasks: Seq<RetryModel>, now: u64) -> nat
    decreases tasks.len(),
{
    if tasks.len() == 0 || !due(tasks.first(), now) {
        0
    } else {
        1 + due_count(tasks.drop_first(), now)
    }
}

/// There are not more due tasks than tasks.
pub proof fn lemma_due_count(tasks: Seq<RetryModel>, now: u64)
    ensures
        due_count(tasks, now) <= tasks.len(),
    decreases tasks.len(),
{
    if tasks.len() > 0 {
        lemma_due_count(tasks.drop_first(), now);
    }
}

/// The task with one more attempt, made at `now`.
pub open spec fn attempted(task: RetryModel, now: u64) -> RetryModel {
    RetryModel { retry_count: (task.retry_count + 1) as u32, last_attempt: now, ..task }
}

/// The tasks that are tried at `now`.
pub open spec fn round(tasks: Seq<RetryModel>, now: u64) -> Seq<RetryModel> {
    tasks.take(due_count(tasks, now) as int).map_values(|t: RetryModel| attempted(t, now))
}

/// The line after an attempt failed: the task goes to the end of it, unless
/// that was its last attempt.
pub open spec fn requeued(tasks: Seq<RetryModel>, task: RetryModel) -> Seq<RetryModel> {
    if task.retry_count < DEFAULT_MAX_RETRY_ATTEMPTS {
        tasks.push(task)
    } else {
        tasks
    }
}

impl RetryQueue {
    #[verifier::type_invariant]
    closed spec fn unfinished(self) -> bool {
        attempts_left(self.tasks.deep_view())
    }

    /// A line without tasks.
    pub fn new() -> (queue: RetryQueue)
        ensures
            queue.deep_view() == Seq::<RetryModel>::empty(),
    {
        RetryQueue { tasks: VecDeque::new() }
    }

    /// The number of tasks in line.
    pub fn len(&self) -> (n: usize)
        ensures
            n == self.deep_view().len(),
            attempts_left(self.deep_view()),
    {
        proof {
            use_type_invariant(self);
        }
        self.tasks.len()
    }

    /// Adds a task at the end.
    fn push(&mut self, task: RetryTask)
        requires
            task.retry_count < DEFAULT_MAX_RETRY_ATTEMPTS,
        ensures
            final(self).deep_view() == old(self).deep_view().push(task.deep_view()),
    {
        proof {
            use_type_invariant(&*self);
        }
        let ghost model = task.deep_view();
        let ghost before = self.tasks.deep_view();
        let mut tasks: VecDeque<RetryTask> = VecDeque::new();
        std::mem::swap(&mut tasks, &mut self.tasks);
        tasks.push_back(task);
        assert(tasks.deep_view() == before.push(model));
        self.tasks = tasks;
    }

    /// Puts a peer in line that could not be put on the interface at `now`.
    /// Where the line is full, the peer is let go.
    pub fn enqueue(
        &mut self,
        pubkey: String,
        endpoint: Option<String>,
        allowed_ips: Option<Vec<String>>,
        persistent_keepalive: Option<u16>,
        preshared_key: Option<String>,
        now: u64,
    )
        ensures
            final(self).deep_view() == enqueued(
                old(self).deep_view(),
                RetryModel {
                    pubkey: pubkey@,
                    endpoint: endpoint.deep_view(),
                    allowed_ips: allowed_ips.deep_view(),
                    persistent_keepalive,
                    preshared_key: preshared_key.deep_view(),
                    retry_count: 0,
                    last_attempt: now,
                },
            ),
    {
        if self.len() < MAX_RETRY_QUEUE_SIZE {
            self.push(
                RetryTask::new(
                    pubkey,
                    endpoint,
                    allowed_ips,
                    persistent_keepalive,
                    preshared_key,
                    now,
                ),
            );
        }
    }

    /// Puts a task back in line whose attempt failed, unless it was the last one.
    pub fn requeue(&mut self, task: RetryTask)
        ensures
            final(self).deep_view() == requeued(old(self).deep_view(), task.deep_view()),
    {
        if task.retry_count < DEFAULT_MAX_RETRY_ATTEMPTS {
            self.push(task);
        }
    }
}

/// Takes the tasks out of the line whose turn it is at `now`.
pub fn process_retry_queue(queue: &mut RetryQueue, now: u64) -> (pending: Vec<RetryTask>)
    ensures
        pending.deep_view() == round(old(queue).deep_view(), now),
        final(queue).deep_view() == old(queue).deep_view().skip(
            due_count(old(queue).deep_view(), now) as int,
        ),
{
    proof {
        use_type_invariant(&*queue);
    }
    let ghost all = queue.tasks.deep_view();
    let mut tasks: VecDeque<RetryTask> = VecDeque::new();
    std::mem::swap(&mut tasks, &mut queue.tasks);
    let mut pending: Vec<RetryTask> = Vec::new();
    let ghost mut n: int = 0;
    assert(all.skip(0) == all);
    loop
        invariant_except_break
            0 <= n <= all.len(),
            tasks.deep_view() == all.skip(n),
            attempts_left(all),
            due_count(all, now) == n + due_count(all.skip(n), now),
            pending.deep_view() == all.take(n).map_values(|t: RetryModel| attempted(t, now)),
        ensures
            0 <= n <= all.len(),
            n == due_count(all, now),
            tasks.deep_view() == all.skip(n),
            pending.deep_view() == all.take(n).map_values(|t: RetryModel| attempted(t, now)),
        decreases all.len() - n,
    {
        let ghost rest = tasks.deep_view();
        assert(tasks@.len() == rest.len());
        match tasks.pop_front() {
            Some(task) => {
                assert(task.deep_view() == all[n]);
                assert(tasks.deep_view() == rest.skip(1));
                if has_elapsed(task.last_attempt, now, task.next_interval()) {
                    let mut task = task;
                    task.last_attempt = now;
                    task.retry_count = task.retry_count + 1;
                    put(&mut pending, task);
                    proof {
                        assert(all.skip(n).drop_first() == all.skip(n + 1));
                        assert(rest.skip(1) == all.skip(n + 1));
                        assert(all.take(n + 1) == all.take(n).push(all[n]));
                        assert(all.take(n + 1).map_values(|t: RetryModel| attempted(t, now))
                            == all.take(n).map_values(|t: RetryModel| attempted(t, now)).push(
                            attempted(all[n], now),
                        ));
                        n = n + 1;
                    }
                } else {
                    tasks.push_front(task);
                    assert(tasks.deep_view() == all.skip(n));
                    break;
                }
            },
            None => {
                assert(tasks.deep_view() == all.skip(n));
                break;
            },
        }
    }
    queue.tasks = tasks;
    pending
}

/// How a task is tried: an endpoint that it names gives way to a local one
/// that is in use and works.
pub open spec fn retry_plan(
    interface: Text,
    task: RetryModel,
    state: WgStateModel,
    lan: LanModel,
    now_secs: u64,
) -> PeerPlanModel {
    let endpoint = if task.endpoint is Some {
        preserved_endpoint(state, task.pubkey, task.endpoint, lan, now_secs)
    } else {
        None
    };
    peer_plan(
        interface,
        task.pubkey,
        endpoint,
        task.allowed_ips,
        task.persistent_keepalive,
        task.preshared_key,
        state,
    )
}

/// How a task is tried.
pub fn plan_retry(interface: &str, task: &RetryTask, state: &WgState, lan: &Lan, now_secs: u64) -> (
plan: PeerPlan)
    ensures
        plan.deep_view() == retry_plan(
            interface@,
            task.deep_view(),
            state.deep_view(),
            lan.deep_view(),
            now_secs,
        ),
{
    let endpoint = if task.endpoint.is_some() {
        preserve_lan_endpoint(state, task.pubkey.as_str(), &task.endpoint, lan, now_secs)
    } else {
        None
    };
    add_or_update_peer(
        interface,
        task.pubkey.as_str(),
        &endpoint,
        &task.allowed_ips,
        task.persistent_keepalive,
        &task.preshared_key,
        state,
    )
}

// ---------- what holds of the line ----------

/// The line after all those attempts failed, one after the other.
pub open spec fn all_requeued(tasks: Seq<RetryModel>, failed: Seq<RetryModel>) -> Seq<RetryModel>
    decreases failed.len(),
{
    if failed.len() == 0 {
        tasks
    } else {
        requeued(all_requeued(tasks, failed.drop_last()), failed.last())
    }
}

/// A round never makes the line longer, whichever of its attempts fail. So
/// the line stays within `MAX_RETRY_QUEUE_SIZE`, where it was within it.
pub proof fn law_round_never_grows(tasks: Seq<RetryModel>, now: u64, failed: Seq<RetryModel>)
    requires
        failed.len() <= round(tasks, now).len(),
    ensures
        all_requeued(tasks.skip(due_count(tasks, now) as int), failed).len() <= tasks.len(),
{
    lemma_due_count(tasks, now);
    let rest = tasks.skip(due_count(tasks, now) as int);
    lemma_requeued_length(rest, failed);
}

/// Every failed attempt adds at most one task.
proof fn lemma_requeued_length(tasks: Seq<RetryModel>, failed: Seq<RetryModel>)
    ensures
        all_requeued(tasks, failed).len() <= tasks.len() + failed.len(),
    decreases failed.len(),
{
    if failed.len() > 0 {
        lemma_requeued_length(tasks, failed.drop_last());
    }
}

/// Enqueueing keeps the line within `MAX_RETRY_QUEUE_SIZE`.
pub proof fn law_enqueue_is_bounded(tasks: Seq<RetryModel>, task: RetryModel)
    requires
        tasks.len() <= MAX_RETRY_QUEUE_SIZE,
    ensures
        enqueued(tasks, task).len() <= MAX_RETRY_QUEUE_SIZE,
{
}

/// No task is tried again more than `DEFAULT_MAX_RETRY_ATTEMPTS` times: each
/// attempt counts, none is made past that number, and a task that has reached
/// it is not put back.
pub proof fn law_attempts_are_limited(tasks: Seq<RetryModel>, now: u64, i: int)
    requires
        attempts_left(tasks),
        0 <= i < round(tasks, now).len(),
    ensures
        round(tasks, now)[i].retry_count == tasks[i].retry_count + 1,
        round(tasks, now)[i].retry_count <= DEFAULT_MAX_RETRY_ATTEMPTS,
        round(tasks, now)[i].retry_count == DEFAULT_MAX_RETRY_ATTEMPTS ==> requeued(
            tasks,
            round(tasks, now)[i],
        ) == tasks,
{
    lemma_due_count(tasks, now);
    assert(round(tasks, now)[i] == attempted(tasks[i], now));
}

/// A task is tried only when its wait is over, and the waits are 1, 2, 4, 8
/// and from the fifth on 16 seconds.
pub proof fn law_waits_double(tasks: Seq<RetryModel>, now: u64, i: int)
    requires
        0 <= i < round(tasks, now).len(),
    ensures
        due(tasks[i], now),
        interval_secs(0) == 1,
        forall|n: u32| n < 4 ==> #[trigger] interval_secs((n + 1) as u32) == 2 * interval_secs(n),
        forall|n: u32| n >= 4 ==> #[trigger] interval_secs(n) == 16,
    decreases tasks.len(),
{
    lemma_due_count(tasks, now);
    lemma2_to64();
    assert forall|n: u32| n < 4 implies #[trigger] interval_secs((n + 1) as u32) == 2
        * interval_secs(n) by {
        lemma_pow2_unfold((n + 1) as nat);
    }
    if i > 0 {
        let rest = tasks.drop_first();
        assert(due_count(tasks, now) == 1 + due_count(rest, now));
        lemma_due_count(rest, now);
        law_waits_double(rest, now, i - 1);
        assert(rest[i - 1] == tasks[i]);
    }
}

/// A task is put at the end of the line while there are fewer than 500 in it,
/// and let go where there are as many; no other task is touched.
pub proof fn law_line_holds_five_hundred(tasks: Seq<RetryModel>, task: RetryModel)
    ensures
        tasks.len() < 500 ==> enqueued(tasks, task) == tasks.push(task),
        tasks.len() >= 500 ==> enqueued(tasks, task) == tasks,
{
}

/// A task is due as soon as its wait is over, counted from its last attempt.
pub proof fn law_due_after_the_wait(task: RetryModel, now: u64)
    ensures
        due(task, now) <==> task.last_attempt + interval_secs(task.retry_count) * 1_000_000_000
            <= now,
{
    lemma_pow2_pos(lesser(task.retry_count as nat, 4));
}

/// All tasks at the front of the line that are due are tried, each as it stands
/// in the line, with one attempt more, made now; and the first one that is not
/// due stays, with all behind it.
pub proof fn law_all_due_tasks_are_tried(tasks: Seq<RetryModel>, now: u64, n: nat)
    requires
        n <= tasks.len(),
        forall|i: int| 0 <= i < n ==> due(#[trigger] tasks[i], now),
        n < tasks.len() ==> !due(tasks[n as int], now),
    ensures
        due_count(tasks, now) == n,
        round(tasks, now).len() == n,
        forall|i: int|
            0 <= i < n ==> (#[trigger] round(tasks, now)[i]) == (RetryModel {
                retry_count: (tasks[i].retry_count + 1) as u32,
                last_attempt: now,
                ..tasks[i]
            }),
    decreases tasks.len(),
{
    if n > 0 {
        let rest = tasks.drop_first();
        assert(due(tasks[0], now));
        assert forall|i: int| 0 <= i < n - 1 implies due(#[trigger] rest[i], now) by {
            assert(rest[i] == tasks[i + 1]);
        }
        law_all_due_tasks_are_tried(rest, now, (n - 1) as nat);
    }
}

/// A task whose attempt failed goes to the end of the line before its fifth
/// attempt, and is let go with it.
pub proof fn law_failed_task_goes_back(tasks: Seq<RetryModel>, task: RetryModel)
    ensures
        task.retry_count < 5 ==> requeued(tasks, task) == tasks.push(task),
        task.retry_count >= 5 ==> requeued(tasks, task) == tasks,
{
}

/// A task is tried with what it was put in line with: its addresses, its
/// keepalive and its pre-shared key. So is its endpoint, unless a local one
/// that works is in use; a task without an endpoint sets none.
pub proof fn law_task_is_tried_as_it_was(
    interface: Text,
    task: RetryModel,
    ips: Seq<Text>,
    state: WgStateModel,
    lan: LanModel,
    now_secs: u64,
)
    requires
        task.allowed_ips == Some(ips),
        ips.len() > 0,
    ensures
        retry_plan(interface, task, state, lan, now_secs).update matches Some(update) && {
            &&& update.interface == interface
            &&& update.pubkey == task.pubkey
            &&& update.allowed_ips == ips
            &&& task.preshared_key matches Some(key) ==> (key.len() > 0 ==> update.preshared_key
                == Some(key))
            &&& task.persistent_keepalive is Some ==> update.keepalive
                == task.persistent_keepalive
            &&& task.endpoint is None ==> update.endpoint is None
            &&& task.endpoint is Some ==> update.endpoint == preserved_endpoint(
                state,
                task.pubkey,
                task.endpoint,
                lan,
                now_secs,
            )
        },
{
}

} // verus!
