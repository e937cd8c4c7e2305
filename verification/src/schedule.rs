//! What the client does by itself, and when.
use vstd::prelude::*;

use crate::clock::{elapsed, has_elapsed, NANOS_PER_SEC};
use crate::session::RegistrationState;

verus! {

/// The seconds between two looks at the peers that are to be tried again.
pub const RETRY_PROCESS_INTERVAL_SECS: u64 = 2;

/// The seconds between two looks at the network.
pub const NETWORK_CHECK_INTERVAL_SECS: u64 = 60;

/// The seconds between two reports of the traffic.
pub const TRAFFIC_REPORT_INTERVAL_SECS: u64 = 30;

/// The seconds between two looks at the switches to local endpoints.
pub const LAN_CHECK_INTERVAL_SECS: u64 = 1;

/// What there is to do: to try peers again; to look at the network, which may
/// change the port too, and at the relays; to change the port as scheduled; to
/// report the traffic; to look at the switches to local endpoints; or to ask
/// to be registered.
#[derive(Clone, Copy, PartialEq, Eq, Structural, Debug)]
pub enum Job {
    Retry,
    Network { change_port: bool },
    ScheduledPort,
    Report,
    LanCheck,
    Register,
}

/// A turn of the client's round: in each, one kind of job is looked at.
#[derive(Clone, Copy, PartialEq, Eq, Structural, Debug)]
pub enum Turn {
    Retry,
    Network,
    ScheduledPort,
    Report,
    LanCheck,
    Register,
}

/// When each job was last done.
#[derive(Clone, Copy, PartialEq, Eq, Structural, Debug)]
pub struct Timers {
    pub retry: u64,
    pub network: u64,
    pub scheduled: u64,
    pub report: u64,
    pub lan: u64,
    pub register: u64,
}

/// The settings of the schedule: whether the port is changed where the network
/// is lost, whether and how often it is changed as scheduled, whether the
/// traffic is reported, and how often it is tried again to register.
#[derive(Clone, Copy, PartialEq, Eq, Structural, Debug)]
pub struct Schedule {
    pub change_port: bool,
    pub scheduled: bool,
    pub scheduled_secs: u64,
    pub report: bool,
    pub re_register_secs: u64,
}

/// So many seconds have passed.
pub open spec fn is_due(last: u64, now: u64, secs: u64) -> bool {
    elapsed(last, now) >= secs * NANOS_PER_SEC
}

/// The report is due: it is on, there is a connection, and its time has come.
pub open spec fn report_due(timers: Timers, schedule: Schedule, connected: bool, now: u64) -> bool {
    schedule.report && connected && is_due(timers.report, now, TRAFFIC_REPORT_INTERVAL_SECS)
}

/// The port is to be changed as scheduled.
pub open spec fn scheduled_due(timers: Timers, schedule: Schedule, now: u64) -> bool {
    schedule.scheduled && is_due(timers.scheduled, now, schedule.scheduled_secs)
}

/// The request to be registered is due: its time has come, the node is not
/// registered, and there is a connection.
pub open spec fn register_due(
    timers: Timers,
    schedule: Schedule,
    connected: bool,
    registration: RegistrationState,
    now: u64,
) -> bool {
    &&& is_due(timers.register, now, schedule.re_register_secs)
    &&& registration != RegistrationState::Registered
    &&& connected
}

/// What comes of a turn: the job to do, if any, and whether the timer of the
/// turn starts anew when that is done.
#[derive(Clone, Copy, PartialEq, Eq, Structural, Debug)]
pub struct TurnStep {
    pub job: Option<Job>,
    pub restart: bool,
}

/// A job that is done, and its timer started anew, where it is due.
pub open spec fn if_due(due: bool, job: Job) -> TurnStep {
    TurnStep {
        job: if due {
            Some(job)
        } else {
            None
        },
        restart: due,
    }
}

/// What comes of a turn at `now`. The timer of the registration starts anew
/// when its time has come, also where there is none to ask for.
pub open spec fn turn_step(
    timers: Timers,
    schedule: Schedule,
    turn: Turn,
    connected: bool,
    registration: RegistrationState,
    now: u64,
) -> TurnStep {
    match turn {
        Turn::Retry => if_due(
            is_due(timers.retry, now, RETRY_PROCESS_INTERVAL_SECS),
            Job::Retry,
        ),
        Turn::Network => if_due(
            is_due(timers.network, now, NETWORK_CHECK_INTERVAL_SECS),
            Job::Network { change_port: schedule.change_port },
        ),
        Turn::ScheduledPort => if_due(
            scheduled_due(timers, schedule, now),
            Job::ScheduledPort,
        ),
        Turn::Report => if_due(report_due(timers, schedule, connected, now), Job::Report),
        Turn::LanCheck => if_due(
            is_due(timers.lan, now, LAN_CHECK_INTERVAL_SECS),
            Job::LanCheck,
        ),
        Turn::Register => TurnStep {
            job: if register_due(timers, schedule, connected, registration, now) {
                Some(Job::Register)
            } else {
                None
            },
            restart: is_due(timers.register, now, schedule.re_register_secs),
        },
    }
}

/// The timers with that of a turn set to `now`.
pub open spec fn restarted(timers: Timers, turn: Turn, now: u64) -> Timers {
    match turn {
        Turn::Retry => Timers { retry: now, ..timers },
        Turn::Network => Timers { network: now, ..timers },
        Turn::ScheduledPort => Timers { scheduled: now, ..timers },
        Turn::Report => Timers { report: now, ..timers },
        Turn::LanCheck => Timers { lan: now, ..timers },
        Turn::Register => Timers { register: now, ..timers },
    }
}

impl Timers {
    /// All timers start at `now`.
    pub fn start(now: u64) -> (timers: Timers)
        ensures
            timers == (Timers {
                retry: now,
                network: now,
                scheduled: now,
                report: now,
                lan: now,
                register: now,
            }),
    {
        Timers { retry: now, network: now, scheduled: now, report: now, lan: now, register: now }
    }

    /// The timer of a turn starts anew at `now`, when its job is done.
    pub fn restart(&mut self, turn: Turn, now: u64)
        ensures
            *final(self) == restarted(*old(self), turn, now),
    {
        match turn {
            Turn::Retry => {
                self.retry = now;
            },
            Turn::Network => {
                self.network = now;
            },
            Turn::ScheduledPort => {
                self.scheduled = now;
            },
            Turn::Report => {
                self.report = now;
            },
            Turn::LanCheck => {
                self.lan = now;
            },
            Turn::Register => {
                self.register = now;
            },
        }
    }

    /// The connection is there again: the time to the next report starts anew,
    /// where there are reports.
    pub fn reconnected(&mut self, schedule: &Schedule, now: u64)
        ensures
            *final(self) == if schedule.report {
                restarted(*old(self), Turn::Report, now)
            } else {
                *old(self)
            },
    {
        if schedule.report {
            self.report = now;
        }
    }
}

/// The turns of a round, in their order.
pub fn turns() -> (all: Vec<Turn>)
    ensures
        all@ == seq![
            Turn::Retry,
            Turn::Network,
            Turn::ScheduledPort,
            Turn::Report,
            Turn::LanCheck,
            Turn::Register,
        ],
{
    vec![
        Turn::Retry,
        Turn::Network,
        Turn::ScheduledPort,
        Turn::Report,
        Turn::LanCheck,
        Turn::Register,
    ]
}

/// A job that is done, and its timer started anew, where it is due.
fn due_or_not(due: bool, job: Job) -> (step: TurnStep)
    ensures
        step == if_due(due, job),
{
    if due {
        TurnStep { job: Some(job), restart: true }
    } else {
        TurnStep { job: None, restart: false }
    }
}

/// What comes of a turn. Each turn is taken at its own time `now`: what falls
/// due while an earlier turn's job is done is done in the same round.
pub fn take_turn(
    timers: &Timers,
    schedule: &Schedule,
    turn: Turn,
    connected: bool,
    registration: RegistrationState,
    now: u64,
) -> (step: TurnStep)
    ensures
        step == turn_step(*timers, *schedule, turn, connected, registration, now),
{
    match turn {
        Turn::Retry => due_or_not(
            has_elapsed(timers.retry, now, RETRY_PROCESS_INTERVAL_SECS),
            Job::Retry,
        ),
        Turn::Network => due_or_not(
            has_elapsed(timers.network, now, NETWORK_CHECK_INTERVAL_SECS),
            Job::Network { change_port: schedule.change_port },
        ),
        Turn::ScheduledPort => due_or_not(
            schedule.scheduled && has_elapsed(timers.scheduled, now, schedule.scheduled_secs),
            Job::ScheduledPort,
        ),
        Turn::Report => due_or_not(
            schedule.report && connected && has_elapsed(
                timers.report,
                now,
                TRAFFIC_REPORT_INTERVAL_SECS,
            ),
            Job::Report,
        ),
        Turn::LanCheck => due_or_not(
            has_elapsed(timers.lan, now, LAN_CHECK_INTERVAL_SECS),
            Job::LanCheck,
        ),
        Turn::Register => {
            let registered = match registration {
                RegistrationState::Registered => true,
                _ => false,
            };
            let restart = has_elapsed(timers.register, now, schedule.re_register_secs);
            if restart && !registered && connected {
                TurnStep { job: Some(Job::Register), restart }
            } else {
                TurnStep { job: None, restart }
            }
        },
    }
}

// ---------- what holds of the schedule ----------

/// The seconds between two times that the job of a turn is done.
pub open spec fn interval_secs(schedule: Schedule, turn: Turn) -> u64 {
    match turn {
        Turn::Retry => RETRY_PROCESS_INTERVAL_SECS,
        Turn::Network => NETWORK_CHECK_INTERVAL_SECS,
        Turn::ScheduledPort => schedule.scheduled_secs,
        Turn::Report => TRAFFIC_REPORT_INTERVAL_SECS,
        Turn::LanCheck => LAN_CHECK_INTERVAL_SECS,
        Turn::Register => schedule.re_register_secs,
    }
}

/// When the timer of a turn last started.
pub open spec fn last_start(timers: Timers, turn: Turn) -> u64 {
    match turn {
        Turn::Retry => timers.retry,
        Turn::Network => timers.network,
        Turn::ScheduledPort => timers.scheduled,
        Turn::Report => timers.report,
        Turn::LanCheck => timers.lan,
        Turn::Register => timers.register,
    }
}

/// What is off is never done: without their settings there is no scheduled
/// change of the port, no report and no change of the port on a lost network,
/// and without a connection neither a report nor a request to be registered.
/// Nor is that requested by a node that is registered.
pub proof fn law_off_jobs_are_not_done(
    timers: Timers,
    schedule: Schedule,
    turn: Turn,
    connected: bool,
    registration: RegistrationState,
    now: u64,
)
    ensures
        match turn_step(timers, schedule, turn, connected, registration, now).job {
            Some(Job::ScheduledPort) => schedule.scheduled,
            Some(Job::Report) => schedule.report && connected,
            Some(Job::Register) => connected && registration != RegistrationState::Registered,
            Some(Job::Network { change_port }) => change_port == schedule.change_port,
            _ => true,
        },
{
}

/// What is on is done when its time has come.
pub proof fn law_due_jobs_are_done(
    timers: Timers,
    schedule: Schedule,
    turn: Turn,
    connected: bool,
    registration: RegistrationState,
    now: u64,
)
    requires
        is_due(last_start(timers, turn), now, interval_secs(schedule, turn)),
        turn == Turn::ScheduledPort ==> schedule.scheduled,
        turn == Turn::Report ==> schedule.report && connected,
        turn == Turn::Register ==> connected && registration != RegistrationState::Registered,
    ensures
        turn_step(timers, schedule, turn, connected, registration, now).job is Some,
        turn_step(timers, schedule, turn, connected, registration, now).restart,
{
}

/// A job that was done at `done` is not done again before its time, whatever
/// the connection and the registration are, and the timers of the other turns
/// run on.
pub proof fn law_jobs_keep_their_intervals(
    timers: Timers,
    schedule: Schedule,
    turn: Turn,
    other: Turn,
    done: u64,
    connected: bool,
    registration: RegistrationState,
    now: u64,
)
    requires
        elapsed(done, now) < interval_secs(schedule, turn) * NANOS_PER_SEC,
    ensures
        turn_step(restarted(timers, turn, done), schedule, turn, connected, registration, now)
            == (TurnStep { job: None, restart: false }),
        other != turn ==> last_start(restarted(timers, turn, done), other) == last_start(
            timers,
            other,
        ),
{
}

/// The time of a turn has come when so many seconds have passed since its timer
/// started: 2 for the peers to try again, 60 for the network, 30 for the
/// report, 1 for the local endpoints, and what is set for the others.
pub proof fn law_turns_have_their_times(
    timers: Timers,
    schedule: Schedule,
    connected: bool,
    registration: RegistrationState,
    now: u64,
)
    ensures
        ({
            let step = |turn: Turn|
                turn_step(timers, schedule, turn, connected, registration, now);
            let billion = 1_000_000_000int;
            &&& timers.retry <= now ==> (step(Turn::Retry).restart <==> now - timers.retry >= 2
                * billion)
            &&& timers.network <= now ==> (step(Turn::Network).restart <==> now - timers.network
                >= 60 * billion)
            &&& timers.scheduled <= now ==> (step(Turn::ScheduledPort).restart
                <==> schedule.scheduled && now - timers.scheduled >= schedule.scheduled_secs
                * billion)
            &&& timers.report <= now ==> (step(Turn::Report).restart <==> schedule.report
                && connected && now - timers.report >= 30 * billion)
            &&& timers.lan <= now ==> (step(Turn::LanCheck).restart <==> now - timers.lan
                >= billion)
            &&& timers.register <= now ==> (step(Turn::Register).restart <==> now
                - timers.register >= schedule.re_register_secs * billion)
        }),
{
}

/// In each turn its own job is done, and exactly where its timer starts anew;
/// but for the registration, which is asked for only where the node is not
/// registered and there is a connection.
pub proof fn law_turn_has_its_job(
    timers: Timers,
    schedule: Schedule,
    connected: bool,
    registration: RegistrationState,
    now: u64,
)
    ensures
        ({
            let step = |turn: Turn|
                turn_step(timers, schedule, turn, connected, registration, now);
            &&& step(Turn::Retry).job == if step(Turn::Retry).restart {
                Some(Job::Retry)
            } else {
                None
            }
            &&& step(Turn::Network).job == if step(Turn::Network).restart {
                Some(Job::Network { change_port: schedule.change_port })
            } else {
                None
            }
            &&& step(Turn::ScheduledPort).job == if step(Turn::ScheduledPort).restart {
                Some(Job::ScheduledPort)
            } else {
                None
            }
            &&& step(Turn::Report).job == if step(Turn::Report).restart {
                Some(Job::Report)
            } else {
                None
            }
            &&& step(Turn::LanCheck).job == if step(Turn::LanCheck).restart {
                Some(Job::LanCheck)
            } else {
                None
            }
            &&& step(Turn::Register).job == if step(Turn::Register).restart && connected
                && registration != RegistrationState::Registered {
                Some(Job::Register)
            } else {
                None
            }
        }),
{
}

/// A timer that starts anew starts now, and no other does.
pub proof fn law_one_timer_starts_anew(timers: Timers, turn: Turn, other: Turn, now: u64)
    ensures
        last_start(restarted(timers, turn, now), turn) == now,
        other != turn ==> last_start(restarted(timers, turn, now), other) == last_start(
            timers,
            other,
        ),
{
}

} // verus!
