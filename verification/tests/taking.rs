use kinesis_consumer::broker::{
    apply_write, renew_request, row_to_put, same_owner, take_request, LeaseTable,
};
use kinesis_consumer::lease::{Lease, ShardInfo};
use kinesis_consumer::pick::{
    draw_shuffled, expired_among, first_up_to, owned_among, pop_up_to, sample_shuffled,
};
use kinesis_consumer::renewer::LeaseRenewer;
use kinesis_consumer::scheduler::{check_parents_done, WorkerScheduler};
use kinesis_consumer::shadow::{find_lease, refresh_leases, upsert_lease};
use kinesis_consumer::taker::LeaseTaker;
use kinesis_consumer::worker::{ConsumerAction, ConsumerEvent, ConsumerStage, ShardWorker};

fn name(text: &str) -> String {
    text.to_string()
}

fn lease(key: &str, owner: Option<&str>, counter: u64, renewal: u64) -> Lease {
    let mut lease = Lease::new(name(key), owner.map(name), counter);
    lease.last_renewal_nanos = renewal;
    lease
}

fn keys(leases: &[Lease]) -> Vec<String> {
    leases.iter().map(|l| l.lease_key.clone()).collect()
}

fn sorted_keys(leases: &[Lease]) -> Vec<String> {
    let mut all = keys(leases);
    all.sort();
    all
}

fn shard(id: &str, parents: &[&str]) -> ShardInfo {
    ShardInfo {
        shard_id: name(id),
        parent_shard_ids: parents.iter().map(|p| name(p)).collect(),
    }
}

fn numbered(count: usize, owner: &str) -> Vec<Lease> {
    (0..count).map(|i| lease(&format!("s{:02}", i), Some(owner), 1, 0)).collect()
}

#[test]
fn scan_times_leases_by_what_was_known() {
    let mut known = vec![
        lease("same", Some("W1"), 4, 111),
        lease("moved", Some("W1"), 4, 222),
        lease("gone", Some("W1"), 4, 333),
    ];
    let scan = vec![
        lease("moved", Some("W2"), 5, 0),
        lease("new-owned", Some("W3"), 1, 0),
        lease("same", Some("W1"), 4, 0),
        lease("new-free", None, 0, 0),
    ];
    refresh_leases(&mut known, &scan, 1_000);
    assert_eq!(
        known,
        vec![
            lease("same", Some("W1"), 4, 111),
            lease("moved", Some("W2"), 5, 1_000),
            lease("new-owned", Some("W3"), 1, 1_000),
            lease("new-free", None, 0, 0),
        ]
    );
    refresh_leases(&mut known, &scan, 2_000);
    assert_eq!(known[0].last_renewal_nanos, 111);
    assert_eq!(known[1].last_renewal_nanos, 1_000);
    assert_eq!(known[2].last_renewal_nanos, 1_000);
    assert_eq!(known[3].last_renewal_nanos, 0);
    refresh_leases(&mut known, &Vec::new(), 3_000);
    assert!(known.is_empty());
}

#[test]
fn later_row_of_a_key_is_timed_against_the_earlier() {
    let mut known = Vec::new();
    let scan = vec![lease("s1", Some("W1"), 1, 0), lease("s1", Some("W2"), 2, 0), lease("s1", None, 2, 0)];
    refresh_leases(&mut known, &scan, 50);
    assert_eq!(known, vec![lease("s1", None, 2, 50)]);
}

#[test]
fn upsert_replaces_by_key() {
    let mut leases = vec![lease("a", None, 0, 0), lease("b", None, 0, 0)];
    upsert_lease(&mut leases, lease("a", Some("W1"), 1, 9));
    upsert_lease(&mut leases, lease("c", None, 0, 0));
    assert_eq!(keys(&leases), vec!["a", "b", "c"]);
    assert_eq!(leases[0].lease_counter, 1);
    assert_eq!(find_lease(&leases, &name("b")), Some(1));
    assert_eq!(find_lease(&leases, &name("z")), None);
}

#[test]
fn filters_keep_order() {
    let leases = vec![
        lease("a", Some("W1"), 1, 100),
        lease("b", Some("W2"), 1, 10),
        lease("c", None, 0, 0),
        lease("d", Some("W1"), 1, 10),
    ];
    assert_eq!(keys(&expired_among(&leases, 70, 50)), vec!["b", "c", "d"]);
    assert_eq!(keys(&expired_among(&leases, 60, 50)), vec!["c"]);
    assert_eq!(keys(&owned_among(&leases, &name("W1"))), vec!["a", "d"]);
    assert!(owned_among(&leases, &name("W3")).is_empty());
}

#[test]
fn pops_come_from_the_end_last_first() {
    let mut leases = numbered(5, "W1");
    let picked = pop_up_to(&mut leases, 2);
    assert_eq!(keys(&picked), vec!["s04", "s03"]);
    assert_eq!(keys(&leases), vec!["s00", "s01", "s02"]);
    let picked = pop_up_to(&mut leases, 9);
    assert_eq!(keys(&picked), vec!["s02", "s01", "s00"]);
    assert!(leases.is_empty());
    assert!(pop_up_to(&mut leases, 3).is_empty());
    let all = numbered(4, "W1");
    assert_eq!(keys(&first_up_to(&all, 3)), vec!["s00", "s01", "s02"]);
    assert_eq!(first_up_to(&all, 0).len(), 0);
    assert_eq!(first_up_to(&all, 10).len(), 4);
}

#[test]
fn shuffled_draw_splits_the_pool() {
    let pool = numbered(30, "W1");
    let mut rest = pool.clone();
    let picked = draw_shuffled(&mut rest, 12);
    assert_eq!(picked.len(), 12);
    assert_eq!(rest.len(), 18);
    let mut both = rest.clone();
    both.extend(picked.iter().cloned());
    assert_eq!(sorted_keys(&both), keys(&pool));
    let sample = sample_shuffled(pool.clone(), 7);
    assert_eq!(sample.len(), 7);
    let mut seen = sorted_keys(&sample);
    seen.dedup();
    assert_eq!(seen.len(), 7);
    assert!(sample.iter().all(|l| pool.contains(l)));
    assert_eq!(sample_shuffled(pool.clone(), 100).len(), 30);
}

#[test]
fn shuffle_changes_the_order() {
    let pool = numbered(30, "W1");
    let mut reversed = keys(&pool);
    reversed.reverse();
    let mut changed = false;
    for _ in 0..5 {
        let mut rest = pool.clone();
        let picked = draw_shuffled(&mut rest, 30);
        assert_eq!(sorted_keys(&picked), keys(&pool));
        if keys(&picked) != reversed {
            changed = true;
        }
    }
    assert!(changed);
    let mut changed = false;
    for _ in 0..5 {
        if keys(&sample_shuffled(pool.clone(), 30)) != keys(&pool) {
            changed = true;
        }
    }
    assert!(changed);
}

#[test]
fn nothing_is_taken_without_a_free_slot() {
    let mut taker = LeaseTaker::new(name("me"), 1000, 5, 50);
    let scan = vec![
        lease("a", Some("me"), 1, 0),
        lease("b", Some("me"), 1, 0),
        lease("c", Some("W2"), 1, 0),
        lease("d", Some("W2"), 1, 0),
    ];
    taker.update_leases_from_source(&scan, 1_000);
    assert_eq!(taker.last_scan_time, 1_000);
    let mut expired = taker.expired_leases(1_010);
    assert!(expired.is_empty());
    assert!(taker.find_leases_to_take(&mut expired).is_empty());
    let mut none: Vec<Lease> = Vec::new();
    let empty = LeaseTaker::new(name("me"), 1000, 5, 50);
    assert!(empty.find_leases_to_take(&mut none).is_empty());
}

#[test]
fn holder_above_target_takes_nothing() {
    let mut taker = LeaseTaker::new(name("me"), 1, 5, 50);
    let scan = vec![
        lease("a", Some("me"), 1, 0),
        lease("b", Some("me"), 1, 0),
        lease("c", Some("me"), 1, 0),
        lease("d", None, 0, 0),
        lease("e", Some("W2"), 1, 0),
    ];
    let picked = taker.take_leases(&scan, 1_000, 1_010);
    assert!(picked.is_empty());
}

#[test]
fn expired_leases_are_taken_up_to_the_free_slots() {
    let mut taker = LeaseTaker::new(name("me"), 1000, 1, 50);
    let mut scan = numbered(6, "W2");
    scan.push(lease("free-1", None, 0, 0));
    scan.push(lease("free-2", None, 0, 0));
    scan.push(lease("free-3", None, 0, 0));
    scan.push(lease("free-4", None, 0, 0));
    scan.push(lease("free-5", None, 0, 0));
    scan.push(lease("free-6", None, 0, 0));
    let picked = taker.take_leases(&scan, 1_000, 1_010);
    assert_eq!(picked.len(), 6);
    assert!(picked.iter().all(|l| l.lease_owner.is_none()));
    let mut seen = sorted_keys(&picked);
    seen.dedup();
    assert_eq!(seen.len(), 6);

    let mut capped = LeaseTaker::new(name("me"), 2, 1, 50);
    assert_eq!(capped.take_leases(&scan, 1_000, 1_010).len(), 2);
    let mut expired = capped.expired_leases(1_010);
    assert_eq!(expired.len(), 6);
    let picked = capped.find_leases_to_take(&mut expired);
    assert_eq!(picked.len(), 2);
    assert_eq!(expired.len(), 4);
}

#[test]
fn steals_come_from_the_busiest_worker_and_respect_the_cap() {
    let mut scan = numbered(8, "big");
    scan.push(lease("x1", Some("small"), 1, 0));
    scan.push(lease("x2", Some("small"), 1, 0));
    for (cap, expected) in [(0usize, 0usize), (1, 1), (2, 2), (10, 4)] {
        let mut taker = LeaseTaker::new(name("me"), 1000, cap, 50);
        let picked = taker.take_leases(&scan, 1_000, 1_010);
        assert_eq!(picked.len(), expected);
        assert!(picked.iter().all(|l| l.lease_owner == Some(name("big"))));
        let mut seen = sorted_keys(&picked);
        seen.dedup();
        assert_eq!(seen.len(), expected);
    }
    let taker = {
        let mut taker = LeaseTaker::new(name("me"), 1000, 3, 50);
        taker.update_leases_from_source(&scan, 1_000);
        taker
    };
    let counts = taker.get_lease_counts(&Vec::new());
    assert_eq!(counts.len(), 3);
    let picked = taker.get_leases_to_steal(&counts, 4, 4);
    assert_eq!(picked.len(), 3);
    assert!(taker.get_leases_to_steal(&counts, 0, 4).is_empty());
    assert!(taker.get_leases_to_steal(&counts, 4, 9).is_empty());
}

#[test]
fn one_lease_is_stolen_from_a_peer_at_target_when_two_are_needed() {
    let scan = vec![
        lease("a", Some("W1"), 1, 0),
        lease("b", Some("W1"), 1, 0),
        lease("c", Some("W2"), 1, 0),
        lease("d", Some("W2"), 1, 0),
    ];
    let mut taker = LeaseTaker::new(name("me"), 1000, 5, 50);
    let picked = taker.take_leases(&scan, 1_000, 1_010);
    assert_eq!(picked.len(), 1);
    assert_eq!(picked[0].lease_owner, Some(name("W2")));
    let mut holder = LeaseTaker::new(name("W1"), 1000, 5, 50);
    let scan = vec![
        lease("a", Some("W1"), 1, 0),
        lease("b", Some("W2"), 1, 0),
        lease("c", Some("W2"), 1, 0),
        lease("d", Some("W3"), 1, 0),
    ];
    assert!(holder.take_leases(&scan, 1_000, 1_010).is_empty());
}

#[test]
fn taken_lease_is_recorded_with_owner_counter_and_time() {
    let mut taker = LeaseTaker::new(name("me"), 1000, 1, 50);
    taker.update_leases_from_source(&vec![lease("a", Some("W2"), 7, 0), lease("b", None, u64::MAX, 0)], 1_000);
    let taken = taker.record_taken(&name("a"), 1_234).unwrap();
    assert_eq!(taken, lease("a", Some("me"), 8, 1_234));
    assert_eq!(taker.all_leases[0], taken);
    assert!(taker.record_taken(&name("missing"), 1_234).is_none());
    assert!(taker.record_taken(&name("b"), 1_234).is_none());
    assert_eq!(taker.all_leases[1], lease("b", None, u64::MAX, 0));
    let mut renewer = LeaseRenewer::new(50);
    taker.run_once(&mut renewer, &vec![name("a"), name("nope"), name("b")], 2_000);
    assert_eq!(renewer.leases, vec![lease("a", Some("me"), 9, 2_000)]);
    assert_eq!(taker.all_leases[0], lease("a", Some("me"), 9, 2_000));
}

#[test]
fn conditional_writes_check_the_counter() {
    let mut row = lease("a", Some("W1"), 3, 0);
    let stale = take_request(&lease("a", Some("W1"), 2, 0), &name("W2")).unwrap();
    assert!(!apply_write(&mut row, &stale));
    assert_eq!(row, lease("a", Some("W1"), 3, 0));
    let first = take_request(&row, &name("W2")).unwrap();
    let second = take_request(&row, &name("W3")).unwrap();
    assert!(apply_write(&mut row, &first));
    assert_eq!(row, lease("a", Some("W2"), 4, 0));
    assert!(!apply_write(&mut row, &second));
    assert_eq!(row.lease_owner, Some(name("W2")));
    let other_key = take_request(&lease("b", None, 4, 0), &name("W3")).unwrap();
    assert!(!apply_write(&mut row, &other_key));
    assert!(take_request(&lease("a", None, u64::MAX, 0), &name("W3")).is_none());
    assert!(renew_request(&lease("a", None, u64::MAX, 0)).is_none());
}

#[test]
fn checkpoint_travels_with_the_lease() {
    let marked = lease("a", Some("W1"), 3, 0).with_checkpoint(Some(vec![4, 2]));
    let mut table = LeaseTable::new();
    table.put(lease("a", Some("W1"), 3, 0));
    let write = take_request(&marked, &name("W2")).unwrap();
    assert_eq!(write.checkpoint, Some(vec![4, 2]));
    assert!(table.write(&write));
    assert_eq!(table.rows[0].checkpoint, Some(vec![4, 2]));
    let mut taker = LeaseTaker::new(name("W3"), 1000, 1, 50);
    taker.update_leases_from_source(&table.list_all(), 1_000);
    assert_eq!(taker.all_leases[0].checkpoint, Some(vec![4, 2]));
    let taken = taker.record_taken(&name("a"), 1_001).unwrap();
    assert_eq!(taken.checkpoint, Some(vec![4, 2]));
    assert_eq!(taken.duplicate(), taken);
    let renewal = renew_request(&taken).unwrap();
    assert_eq!(renewal.checkpoint, Some(vec![4, 2]));
    assert_eq!(renewal.expected_owner, Some(name("W3")));
    let row = row_to_put(&renewal).unwrap();
    assert_eq!(row, lease("a", Some("W3"), 6, 0).with_checkpoint(Some(vec![4, 2])));
    let mut last = renewal.clone();
    last.expected_counter = u64::MAX;
    assert!(row_to_put(&last).is_none());
    assert!(same_owner(&None, &None));
    assert!(same_owner(&Some(name("a")), &Some(name("a"))));
    assert!(!same_owner(&Some(name("a")), &None));
    assert!(!same_owner(&Some(name("a")), &Some(name("b"))));
}

#[test]
fn renewal_checks_owner_and_counter() {
    let mut row = lease("a", Some("W1"), 3, 0);
    let by_other = renew_request(&lease("a", Some("W2"), 3, 0)).unwrap();
    assert!(!apply_write(&mut row, &by_other));
    let stale = renew_request(&lease("a", Some("W1"), 2, 0)).unwrap();
    assert!(!apply_write(&mut row, &stale));
    let good = renew_request(&lease("a", Some("W1"), 3, 0)).unwrap();
    assert!(apply_write(&mut row, &good));
    assert_eq!(row, lease("a", Some("W1"), 4, 0));
    assert!(!apply_write(&mut row, &good));
    let mut table = LeaseTable::new();
    assert!(!table.write(&good));
    table.put(lease("a", Some("W1"), 3, 0));
    table.put(lease("b", None, 0, 0));
    assert!(table.write(&good));
    assert_eq!(table.list_all(), vec![lease("a", Some("W1"), 4, 0), lease("b", None, 0, 0)]);
}

#[test]
fn renewer_drops_what_it_could_not_renew() {
    let mut renewer = LeaseRenewer::new(50);
    renewer.add_leases(vec![
        lease("a", Some("me"), 1, 1_000),
        lease("b", Some("me"), 1, 900),
        lease("c", Some("me"), 1, 1_000),
        lease("a", Some("me"), 2, 1_000),
        lease("d", Some("me"), u64::MAX, 1_000),
    ]);
    assert_eq!(keys(&renewer.leases), vec!["a", "b", "c", "d"]);
    assert_eq!(renewer.leases[0].lease_counter, 2);
    assert!(renewer.renew_lease(&renewer.leases[0], 1_050).is_some());
    assert!(renewer.renew_lease(&renewer.leases[0], 1_051).is_none());
    let writes = renewer.renewals(1_010);
    let asked: Vec<String> = writes.iter().map(|w| w.lease_key.clone()).collect();
    assert_eq!(asked, vec!["a", "c"]);
    assert!(writes.iter().all(|w| w.check_owner && w.expected_owner == Some(name("me"))));
    assert_eq!(writes[0].expected_counter, 2);
    renewer.run_once(&vec![name("c"), name("zzz"), name("d")], 1_010);
    assert_eq!(renewer.leases, vec![lease("c", Some("me"), 2, 1_010)]);
    let shards = renewer.owned_shards();
    assert_eq!(shards.len(), 1);
    assert_eq!(shards[0].shard_id, "c");
}

#[test]
fn child_shard_waits_for_its_parent() {
    let owned = vec![shard("parent", &[]), shard("child", &["parent"]), shard("orphan", &["done"])];
    assert!(!check_parents_done(&owned[1], &owned));
    assert!(check_parents_done(&owned[2], &owned));
    let mut scheduler = WorkerScheduler::new(10);
    assert_eq!(scheduler.get_interval(), 10);
    let plan = scheduler.run_once(&owned);
    let started: Vec<String> = plan.start.iter().map(|s| s.shard_id.clone()).collect();
    assert_eq!(started, vec!["parent", "orphan"]);
    let owned = vec![shard("child", &["parent"]), shard("orphan", &["done"]), shard("child", &[])];
    let plan = scheduler.run_once(&owned);
    let started: Vec<String> = plan.start.iter().map(|s| s.shard_id.clone()).collect();
    let stopped: Vec<String> = plan.stop.iter().map(|s| s.shard_id.clone()).collect();
    assert_eq!(started, vec!["child"]);
    assert_eq!(stopped, vec!["parent"]);
    scheduler.remove_consumers(&plan.stop);
    let running: Vec<String> = scheduler.consumers.iter().map(|s| s.shard_id.clone()).collect();
    assert_eq!(running, vec!["orphan", "child"]);
}

#[test]
fn subscription_is_given_up_after_five_failures() {
    let mut consumer = ShardWorker::new(shard("s1", &[]));
    consumer.start();
    consumer.step(ConsumerEvent::Initialized);
    let mut delays = Vec::new();
    for _ in 0..4 {
        match consumer.step(ConsumerEvent::SubscriptionFailed) {
            ConsumerAction::Resubscribe { delay_millis } => delays.push(delay_millis),
            other => panic!("unexpected action {:?}", other),
        }
    }
    assert_eq!(delays, vec![100, 200, 400, 800]);
    assert_eq!(consumer.step(ConsumerEvent::SubscriptionFailed), ConsumerAction::LeaseLost);
    assert_eq!(consumer.state.stage, ConsumerStage::Draining);
    assert_eq!(consumer.step(ConsumerEvent::SubscriptionFailed), ConsumerAction::Wait);
    assert_eq!(consumer.step(ConsumerEvent::Batch { is_at_shard_end: false }), ConsumerAction::Wait);
    assert_eq!(consumer.step(ConsumerEvent::CallbackReturned), ConsumerAction::Finish);
}

#[test]
fn successful_batch_resets_the_failure_count() {
    let mut consumer = ShardWorker::new(shard("s1", &[]));
    consumer.start();
    consumer.step(ConsumerEvent::Initialized);
    for _ in 0..3 {
        consumer.step(ConsumerEvent::SubscriptionFailed);
    }
    assert_eq!(consumer.state.failed_attempts, 3);
    assert_eq!(consumer.step(ConsumerEvent::Batch { is_at_shard_end: false }), ConsumerAction::Process);
    assert_eq!(consumer.state.failed_attempts, 0);
    assert_eq!(consumer.step(ConsumerEvent::Processed), ConsumerAction::Receive);
    assert_eq!(
        consumer.step(ConsumerEvent::SubscriptionFailed),
        ConsumerAction::Resubscribe { delay_millis: 100 }
    );
}

#[test]
fn exactly_one_terminal_callback_on_every_path() {
    let paths: Vec<(Vec<ConsumerEvent>, ConsumerAction)> = vec![
        (
            vec![ConsumerEvent::ShutdownSignal, ConsumerEvent::Start, ConsumerEvent::Initialized],
            ConsumerAction::ShutdownRequested,
        ),
        (
            vec![ConsumerEvent::Start, ConsumerEvent::LeaseLostSignal, ConsumerEvent::Initialized],
            ConsumerAction::LeaseLost,
        ),
        (
            vec![ConsumerEvent::Start, ConsumerEvent::Initialized, ConsumerEvent::SubscriptionClosed],
            ConsumerAction::ShutdownRequested,
        ),
        (
            vec![
                ConsumerEvent::Start,
                ConsumerEvent::Initialized,
                ConsumerEvent::Batch { is_at_shard_end: true },
                ConsumerEvent::ShutdownSignal,
                ConsumerEvent::LeaseLostSignal,
                ConsumerEvent::Processed,
            ],
            ConsumerAction::LeaseLost,
        ),
        (
            vec![
                ConsumerEvent::Start,
                ConsumerEvent::Initialized,
                ConsumerEvent::Batch { is_at_shard_end: false },
                ConsumerEvent::Processed,
                ConsumerEvent::ShutdownSignal,
            ],
            ConsumerAction::ShutdownRequested,
        ),
    ];
    for (events, terminal) in paths {
        let mut consumer = ShardWorker::new(shard("s1", &[]));
        let mut actions: Vec<ConsumerAction> = events.iter().map(|e| consumer.step(*e)).collect();
        for extra in [
            ConsumerEvent::ShutdownSignal,
            ConsumerEvent::LeaseLostSignal,
            ConsumerEvent::Processed,
            ConsumerEvent::CallbackReturned,
            ConsumerEvent::CallbackReturned,
            ConsumerEvent::Start,
        ] {
            actions.push(consumer.step(extra));
        }
        assert!(consumer.is_shutdown());
        let terminals: Vec<&ConsumerAction> = actions
            .iter()
            .filter(|a| {
                matches!(
                    a,
                    ConsumerAction::LeaseLost
                        | ConsumerAction::ShardEnded
                        | ConsumerAction::ShutdownRequested
                )
            })
            .collect();
        assert_eq!(terminals, vec![&terminal]);
        let at = actions.iter().position(|a| *a == terminal).unwrap();
        let initialized = actions.iter().position(|a| *a == ConsumerAction::Initialize).unwrap();
        assert!(initialized < at);
        assert!(actions[at..].iter().all(|a| *a != ConsumerAction::Process));
        assert_eq!(actions.iter().filter(|a| **a == ConsumerAction::Finish).count(), 1);
    }
}
