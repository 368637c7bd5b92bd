use std::time::Duration;

use kinesis_consumer::clock::{current_nano_time, saturate_nanos, MonotonicClock};
use kinesis_consumer::counts::{
    busiest_worker, compute_steal_count, compute_target, count_leases, find_worker, WorkerCount,
};
use kinesis_consumer::decimal::{format_u64, parse_u64};
use kinesis_consumer::exception::Exception;
use kinesis_consumer::lease::{contains_name, has_shard, owner_is, Lease, ShardInfo};
use kinesis_consumer::retry::{FixedCountWithDelayStrategy, RetryDecision};
use kinesis_consumer::runnable::{compute_sleep, Cadence, LoopAction, LoopEvent, PeriodicTask};
use kinesis_consumer::worker::compute_backoff;

fn name(text: &str) -> String {
    text.to_string()
}

fn owned(key: &str, owner: &str, renewal: u64) -> Lease {
    let mut lease = Lease::new(name(key), Some(name(owner)), 1);
    lease.last_renewal_nanos = renewal;
    lease
}

#[test]
fn lease_expires_strictly_after_failover_time() {
    let lease = owned("s1", "W1", 1_000);
    assert!(!lease.is_expired(1_000, 500));
    assert!(!lease.is_expired(1_500, 500));
    assert!(lease.is_expired(1_501, 500));
    assert!(!lease.is_expired(10, 500));
    assert!(!lease.is_expired(u64::MAX, u64::MAX));
    let unowned = Lease::new(name("s2"), None, 0);
    assert!(unowned.is_expired(501, 500));
    assert!(!unowned.is_expired(500, 500));
}

#[test]
fn shard_info_from_lease_takes_the_key() {
    let shard = ShardInfo::from_lease(&owned("shard-7", "W1", 0));
    assert_eq!(shard.shard_id, "shard-7");
    assert!(shard.parent_shard_ids.is_empty());
    let other = ShardInfo {
        shard_id: name("shard-7"),
        parent_shard_ids: vec![name("shard-1")],
    };
    assert!(shard.same_shard(&other));
    assert!(!shard.same_shard(&ShardInfo::from_lease(&owned("shard-8", "W1", 0))));
    assert!(has_shard(&vec![other.clone()], &name("shard-7")));
    assert!(!has_shard(&vec![other], &name("shard-1")));
}

#[test]
fn owner_and_name_lookups() {
    assert!(owner_is(&Some(name("W1")), &name("W1")));
    assert!(!owner_is(&Some(name("W1")), &name("W2")));
    assert!(!owner_is(&None, &name("W1")));
    let names = vec![name("a"), name("b")];
    assert!(contains_name(&names, &name("b")));
    assert!(!contains_name(&names, &name("c")));
}

#[test]
fn target_is_one_when_workers_cover_leases() {
    assert_eq!(compute_target(3, 3, 1000), 1);
    assert_eq!(compute_target(3, 5, 1000), 1);
    assert_eq!(compute_target(0, 1, 1000), 1);
    assert_eq!(compute_target(1, 1, 0), 1);
}

#[test]
fn target_is_share_rounded_up_and_capped() {
    assert_eq!(compute_target(3, 1, 1000), 3);
    assert_eq!(compute_target(3, 2, 1000), 2);
    assert_eq!(compute_target(4, 2, 1000), 2);
    assert_eq!(compute_target(7, 3, 1000), 3);
    assert_eq!(compute_target(10, 3, 1000), 4);
    assert_eq!(compute_target(10, 3, 2), 2);
    assert_eq!(compute_target(10, 3, 0), 0);
    assert_eq!(compute_target(usize::MAX, 2, usize::MAX), usize::MAX / 2 + 1);
}

#[test]
fn steal_count_follows_the_surplus() {
    assert_eq!(compute_steal_count(3, 2, 2, 1), 1);
    assert_eq!(compute_steal_count(3, 2, 2, 5), 1);
    assert_eq!(compute_steal_count(6, 2, 2, 5), 2);
    assert_eq!(compute_steal_count(6, 2, 3, 5), 3);
    assert_eq!(compute_steal_count(6, 2, 3, 2), 2);
    assert_eq!(compute_steal_count(1, 2, 2, 5), 0);
    assert_eq!(compute_steal_count(5, 2, 0, 5), 0);
}

#[test]
fn steal_count_forces_one_when_two_are_needed() {
    assert_eq!(compute_steal_count(2, 2, 1, 5), 0);
    assert_eq!(compute_steal_count(2, 2, 2, 5), 1);
    assert_eq!(compute_steal_count(2, 2, 7, 5), 1);
    assert_eq!(compute_steal_count(2, 2, 2, 0), 0);
}

#[test]
fn lease_counts_skip_expired_and_unowned() {
    let leases = vec![
        owned("s1", "W1", 0),
        owned("s2", "W2", 0),
        owned("s3", "W1", 0),
        Lease::new(name("s4"), None, 0),
        owned("s5", "W3", 0),
    ];
    let expired = vec![owned("s5", "W3", 0)];
    let counts = count_leases(&leases, &expired, &name("me"));
    assert_eq!(counts.len(), 3);
    let first = find_worker(&counts, &name("W1")).unwrap();
    assert_eq!(counts[first].count, 2);
    let second = find_worker(&counts, &name("W2")).unwrap();
    assert_eq!(counts[second].count, 1);
    let mine = find_worker(&counts, &name("me")).unwrap();
    assert_eq!(counts[mine].count, 0);
    assert!(find_worker(&counts, &name("W3")).is_none());
}

#[test]
fn busiest_worker_is_the_last_of_the_highest() {
    let counts = vec![
        WorkerCount { worker: name("a"), count: 2 },
        WorkerCount { worker: name("b"), count: 5 },
        WorkerCount { worker: name("c"), count: 5 },
        WorkerCount { worker: name("d"), count: 1 },
    ];
    assert_eq!(busiest_worker(&counts), 2);
    assert_eq!(busiest_worker(&counts[..1].to_vec()), 0);
}

#[test]
fn decimal_text_round_trips() {
    for n in [0u64, 7, 10, 99, 100, 12345, u64::MAX - 1, u64::MAX] {
        let text = format_u64(n);
        assert_eq!(text, n.to_string());
        assert_eq!(parse_u64(&text), Some(n));
    }
}

#[test]
fn decimal_text_is_read_like_an_unsigned_number() {
    assert_eq!(parse_u64("0042"), Some(42));
    assert_eq!(parse_u64("+42"), Some(42));
    assert_eq!(parse_u64(""), None);
    assert_eq!(parse_u64("+"), None);
    assert_eq!(parse_u64("-1"), None);
    assert_eq!(parse_u64("++1"), None);
    assert_eq!(parse_u64("1+"), None);
    assert_eq!(parse_u64("12a"), None);
    assert_eq!(parse_u64(" 12"), None);
    assert_eq!(parse_u64("1.5"), None);
    assert_eq!(parse_u64("18446744073709551615"), Some(u64::MAX));
    assert_eq!(parse_u64("18446744073709551616"), None);
    assert_eq!(parse_u64("99999999999999999999999"), None);
    for text in ["0042", "+42", "", "+", "-1", "12a", "18446744073709551616"] {
        assert_eq!(parse_u64(text), text.parse::<u64>().ok());
    }
}

#[test]
fn backoff_doubles_up_to_ten_seconds() {
    assert_eq!(compute_backoff(0), 100);
    assert_eq!(compute_backoff(1), 100);
    assert_eq!(compute_backoff(2), 200);
    assert_eq!(compute_backoff(3), 400);
    assert_eq!(compute_backoff(4), 800);
    assert_eq!(compute_backoff(7), 6400);
    assert_eq!(compute_backoff(8), 10000);
    assert_eq!(compute_backoff(40), 10000);
}

#[test]
fn sleep_depends_on_the_cadence() {
    assert_eq!(compute_sleep(Cadence::FixedDelay, 10, 3), 10);
    assert_eq!(compute_sleep(Cadence::FixedDelay, 10, 30), 10);
    assert_eq!(compute_sleep(Cadence::FixedInterval, 10, 3), 7);
    assert_eq!(compute_sleep(Cadence::FixedInterval, 10, 10), 0);
    assert_eq!(compute_sleep(Cadence::FixedInterval, 10, 30), 0);
}

#[test]
fn fixed_interval_task_runs_again_at_once_when_late() {
    let mut task = PeriodicTask::new(Cadence::FixedInterval, 10);
    assert_eq!(task.step(LoopEvent::SleepDone), LoopAction::Wait);
    assert_eq!(task.step(LoopEvent::Begin), LoopAction::Run);
    assert_eq!(
        task.step(LoopEvent::RunDone { elapsed_nanos: 4 }),
        LoopAction::Sleep { nanos: 6 }
    );
    assert_eq!(task.step(LoopEvent::SleepDone), LoopAction::Run);
    assert_eq!(
        task.step(LoopEvent::RunDone { elapsed_nanos: 25 }),
        LoopAction::Run
    );
    assert!(!task.is_finished());
}

#[test]
fn task_signalled_before_it_begins_never_runs() {
    let mut task = PeriodicTask::new(Cadence::FixedDelay, 10);
    assert_eq!(task.step(LoopEvent::Shutdown), LoopAction::Wait);
    assert_eq!(task.step(LoopEvent::Begin), LoopAction::BeforeShutdownComplete);
    assert_eq!(task.step(LoopEvent::Shutdown), LoopAction::Wait);
    assert_eq!(task.step(LoopEvent::Begin), LoopAction::Wait);
    assert_eq!(task.step(LoopEvent::HookDone), LoopAction::NotifyShutdownComplete);
    assert_eq!(task.step(LoopEvent::HookDone), LoopAction::Wait);
    assert!(task.is_finished());
}

#[test]
fn retry_strategy_retries_transient_failures_only() {
    let delay = Duration::from_millis(250);
    let mut strategy = FixedCountWithDelayStrategy::new(3, delay);
    assert_eq!(strategy.max_attempts, 3);
    assert_eq!(strategy.delay, delay);
    match strategy.handle(1, Exception::Retryable(name("throttled"))) {
        RetryDecision::WaitRetry(wait) => assert_eq!(wait, delay),
        other => panic!("unexpected decision {:?}", other),
    }
    match strategy.handle(2, Exception::NonRetryable(name("schema"))) {
        RetryDecision::ForwardError(e) => assert_eq!(e, Exception::NonRetryable(name("schema"))),
        other => panic!("unexpected decision {:?}", other),
    }
    match strategy.handle(3, Exception::Retryable(name("throttled"))) {
        RetryDecision::ForwardError(e) => assert_eq!(e, Exception::Retryable(name("throttled"))),
        other => panic!("unexpected decision {:?}", other),
    }
    match strategy.handle(9, Exception::Retryable(name("late"))) {
        RetryDecision::ForwardError(e) => assert!(e.is_retryable()),
        other => panic!("unexpected decision {:?}", other),
    }
    assert!(!Exception::NonRetryable(name("x")).is_retryable());
}

#[test]
fn clock_readings_start_at_the_base_and_do_not_go_back() {
    let clock = MonotonicClock::new(5_000);
    let first = current_nano_time(&clock);
    let second = current_nano_time(&clock);
    assert!(first >= 5_000);
    assert!(second >= first);
    assert_eq!(saturate_nanos(10, 5), 15);
    assert_eq!(saturate_nanos(u64::MAX - 1, 1), u64::MAX);
    assert_eq!(saturate_nanos(u64::MAX - 1, 2), u64::MAX);
    assert_eq!(saturate_nanos(0, u128::MAX), u64::MAX);
    assert_eq!(saturate_nanos(0, u64::MAX as u128), u64::MAX);
}

#[test]
fn clock_advances_with_time() {
    let clock = MonotonicClock::new(0);
    let first = current_nano_time(&clock);
    let mut second = first;
    let mut reads: u64 = 0;
    while second == first && reads < 1_000_000_000 {
        second = current_nano_time(&clock);
        reads += 1;
    }
    assert!(second > first);
    assert!(second < first + 10_000_000_000);
}
