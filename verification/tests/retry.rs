use wg_subscriber::lan::Lan;
use wg_subscriber::retry::{
    plan_retry, process_retry_queue, RetryQueue, RetryTask, DEFAULT_MAX_RETRY_ATTEMPTS,
    MAX_RETRY_QUEUE_SIZE,
};
use wg_subscriber::state::{get_wg_state, WgState};

const SEC: u64 = 1_000_000_000;

fn ips() -> Option<Vec<String>> {
    Some(vec!["10.0.0.2/32".to_string()])
}

fn put(queue: &mut RetryQueue, pubkey: &str, now: u64) {
    queue.enqueue(pubkey.to_string(), None, ips(), None, None, now);
}

fn off() -> Lan {
    Lan { enabled: false, nets: Vec::new() }
}

#[test]
fn waits_double_up_to_sixteen_seconds() {
    let mut task = RetryTask::new("k".to_string(), None, None, None, None, 7);
    assert_eq!(task.retry_count, 0);
    assert_eq!(task.last_attempt, 7);
    let waits: Vec<u64> = (0..7)
        .map(|n| {
            task.retry_count = n;
            task.next_interval()
        })
        .collect();
    assert_eq!(waits, vec![1, 2, 4, 8, 16, 16, 16]);
    task.retry_count = u32::MAX;
    assert_eq!(task.next_interval(), 16);
}

#[test]
fn only_due_tasks_at_the_front_are_tried() {
    let mut queue = RetryQueue::new();
    put(&mut queue, "a", 0);
    put(&mut queue, "b", SEC);
    put(&mut queue, "c", 0);
    assert_eq!(process_retry_queue(&mut queue, SEC - 1).len(), 0);
    let tried = process_retry_queue(&mut queue, SEC);
    assert_eq!(tried.len(), 1);
    assert_eq!(tried[0].pubkey, "a");
    assert_eq!(tried[0].retry_count, 1);
    assert_eq!(tried[0].last_attempt, SEC);
    // "c" is due, but stands behind "b", which is not.
    assert_eq!(queue.len(), 2);
    assert_eq!(process_retry_queue(&mut queue, 2 * SEC).len(), 2);
    assert_eq!(queue.len(), 0);
}

#[test]
fn task_is_tried_five_times() {
    let mut queue = RetryQueue::new();
    put(&mut queue, "a", 0);
    let mut now = 0;
    let mut attempts = 0;
    while queue.len() > 0 {
        now += 16 * SEC;
        for task in process_retry_queue(&mut queue, now) {
            attempts += 1;
            queue.requeue(task);
        }
    }
    assert_eq!(attempts, DEFAULT_MAX_RETRY_ATTEMPTS);
}

#[test]
fn full_line_takes_no_more() {
    let mut queue = RetryQueue::new();
    for i in 0..MAX_RETRY_QUEUE_SIZE + 3 {
        put(&mut queue, &i.to_string(), 0);
    }
    assert_eq!(queue.len(), MAX_RETRY_QUEUE_SIZE);
    let tried = process_retry_queue(&mut queue, SEC);
    assert_eq!(tried.len(), MAX_RETRY_QUEUE_SIZE);
    for task in tried {
        queue.requeue(task);
    }
    assert_eq!(queue.len(), MAX_RETRY_QUEUE_SIZE);
}

#[test]
fn retry_keeps_a_working_local_endpoint() {
    let state =
        get_wg_state("i\nk\t-\t192.168.1.9:51820\t10.0.0.2/32\t1000\t0\t0\t0\n");
    let lan = Lan {
        enabled: true,
        nets: vec![wg_subscriber::foreign::Net::V4 { addr: 0xc0a80100, prefix: 24 }],
    };
    let task = RetryTask::new(
        "k".to_string(),
        Some("203.0.113.1:1".to_string()),
        ips(),
        None,
        None,
        0,
    );
    let kept = plan_retry("wg0", &task, &state, &lan, 1020).update.unwrap();
    assert_eq!(kept.endpoint.as_deref(), Some("192.168.1.9:51820"));
    let moved = plan_retry("wg0", &task, &state, &lan, 1021).update.unwrap();
    assert_eq!(moved.endpoint.as_deref(), Some("203.0.113.1:1"));
    let unnamed = RetryTask::new("k".to_string(), None, ips(), None, None, 0);
    assert_eq!(plan_retry("wg0", &unnamed, &state, &lan, 1020).update.unwrap().endpoint, None);
}

#[test]
fn retry_without_addresses_sets_nothing() {
    let task = RetryTask::new("k".to_string(), None, None, None, None, 0);
    let plan = plan_retry("wg0", &task, &WgState::empty(), &off(), 0);
    assert!(plan.update.is_none());
    assert!(plan.removal.is_none());
}
