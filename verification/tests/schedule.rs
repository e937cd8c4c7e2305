use wg_subscriber::schedule::{take_turn, turns, Job, Schedule, Timers, Turn, TurnStep};
use wg_subscriber::session::RegistrationState;

const SEC: u64 = 1_000_000_000;

fn all_on() -> Schedule {
    Schedule {
        change_port: true,
        scheduled: true,
        scheduled_secs: 7200,
        report: true,
        re_register_secs: 600,
    }
}

/// A round in which no time passes.
fn due(timers: &mut Timers, schedule: &Schedule, connected: bool, secs: u64) -> Vec<Job> {
    let mut jobs = Vec::new();
    for turn in turns() {
        let registration = RegistrationState::InProgress;
        let step = take_turn(timers, schedule, turn, connected, registration, secs * SEC);
        jobs.extend(step.job);
        if step.restart {
            timers.restart(turn, secs * SEC);
        }
    }
    jobs
}

#[test]
fn jobs_come_at_their_intervals() {
    let mut timers = Timers::start(0);
    let schedule = all_on();
    assert!(due(&mut timers, &schedule, true, 0).is_empty());
    assert_eq!(due(&mut timers, &schedule, true, 1), vec![Job::LanCheck]);
    assert!(due(&mut timers, &schedule, true, 1).is_empty());
    assert_eq!(due(&mut timers, &schedule, true, 2), vec![Job::Retry, Job::LanCheck]);
    assert_eq!(
        due(&mut timers, &schedule, true, 7200),
        vec![
            Job::Retry,
            Job::Network { change_port: true },
            Job::ScheduledPort,
            Job::Report,
            Job::LanCheck,
            Job::Register,
        ]
    );
    assert_eq!(timers, Timers::start(7200 * SEC));
}

#[test]
fn every_job_has_its_time() {
    for (job, secs) in [
        (Job::Retry, 2),
        (Job::Network { change_port: true }, 60),
        (Job::ScheduledPort, 7200),
        (Job::Report, 30),
        (Job::LanCheck, 1),
        (Job::Register, 600),
    ] {
        let mut timers = Timers::start(0);
        assert!(!due(&mut timers, &all_on(), true, secs - 1).contains(&job));
        let mut timers = Timers::start(0);
        assert!(due(&mut timers, &all_on(), true, secs).contains(&job));
    }
}

#[test]
fn what_is_off_is_not_done() {
    let off = Schedule { change_port: false, scheduled: false, report: false, ..all_on() };
    let mut timers = Timers::start(0);
    assert_eq!(
        due(&mut timers, &off, false, 9000),
        vec![Job::Retry, Job::Network { change_port: false }, Job::LanCheck]
    );
    // The timers of what is off stand still; that of the registration does not.
    assert_eq!((timers.scheduled, timers.report), (0, 0));
    assert_eq!(timers.register, 9000 * SEC);
}

#[test]
fn registered_node_does_not_ask_again() {
    let timers = Timers::start(0);
    let registered = RegistrationState::Registered;
    assert_eq!(
        take_turn(&timers, &all_on(), Turn::Register, true, registered, 600 * SEC),
        TurnStep { job: None, restart: true }
    );
    assert_eq!(
        take_turn(&timers, &all_on(), Turn::Register, true, registered, 600 * SEC - 1),
        TurnStep { job: None, restart: false }
    );
}

#[test]
fn report_waits_for_the_connection() {
    let mut timers = Timers::start(0);
    assert!(!due(&mut timers, &all_on(), false, 40).contains(&Job::Report));
    assert_eq!(timers.report, 0);
    timers.reconnected(&all_on(), 41 * SEC);
    assert!(!due(&mut timers, &all_on(), true, 70).contains(&Job::Report));
    assert!(due(&mut timers, &all_on(), true, 71).contains(&Job::Report));
    let mut still = Timers::start(5);
    still.reconnected(&Schedule { report: false, ..all_on() }, 9);
    assert_eq!(still.report, 5);
}

#[test]
fn time_counts_from_the_end_of_a_job() {
    let mut timers = Timers::start(0);
    timers.restart(Turn::Network, 7);
    assert_eq!(timers, Timers { network: 7, ..Timers::start(0) });
    timers.restart(Turn::Register, 9);
    assert_eq!(timers, Timers { network: 7, register: 9, ..Timers::start(0) });
}

#[test]
fn what_falls_due_during_a_round_is_done_in_it() {
    let timers = Timers::start(0);
    let registration = RegistrationState::InProgress;
    let take = |turn, secs| take_turn(&timers, &all_on(), turn, true, registration, secs * SEC);
    // The report is not due when the round begins, but the look at the network
    // takes a while.
    assert_eq!(take(Turn::Report, 25).job, None);
    assert_eq!(
        take(Turn::Network, 60),
        TurnStep { job: Some(Job::Network { change_port: true }), restart: true }
    );
    assert_eq!(take(Turn::Report, 65), TurnStep { job: Some(Job::Report), restart: true });
}

#[test]
fn turns_come_in_their_order() {
    assert_eq!(
        turns(),
        vec![
            Turn::Retry,
            Turn::Network,
            Turn::ScheduledPort,
            Turn::Report,
            Turn::LanCheck,
            Turn::Register,
        ]
    );
}
