use kinesis_consumer::broker::{take_request, LeaseTable};
use kinesis_consumer::lease::{Lease, ShardInfo};
use kinesis_consumer::manager::LeaseManager;
use kinesis_consumer::renewer::LeaseRenewer;
use kinesis_consumer::runnable::{LoopAction, LoopEvent, LoopPhase};
use kinesis_consumer::scheduler::WorkerScheduler;
use kinesis_consumer::taker::LeaseTaker;
use kinesis_consumer::worker::{ConsumerAction, ConsumerEvent, ConsumerStage, ShardWorker};

const SECOND: u64 = 1_000_000_000;
const FAILOVER: u64 = 30 * SECOND;

fn name(text: &str) -> String {
    text.to_string()
}

fn table_of(keys: &[&str]) -> LeaseTable {
    let mut table = LeaseTable::new();
    for key in keys {
        table.put(Lease::new(name(key), None, 0));
    }
    table
}

fn taker_pass(
    taker: &mut LeaseTaker,
    renewer: &mut LeaseRenewer,
    table: &mut LeaseTable,
    now: u64,
) -> usize {
    let scan = table.list_all();
    let candidates = taker.take_leases(&scan, now, now);
    let mut taken = Vec::new();
    for lease in candidates.iter() {
        if let Some(write) = take_request(lease, &taker.worker_identifier) {
            if table.write(&write) {
                taken.push(lease.lease_key.clone());
            }
        }
    }
    taker.run_once(renewer, &taken, now);
    candidates.len()
}

fn renewer_pass(renewer: &mut LeaseRenewer, table: &mut LeaseTable, now: u64) {
    let writes = renewer.renewals(now);
    let mut renewed = Vec::new();
    for write in writes.iter() {
        if table.write(write) {
            renewed.push(write.lease_key.clone());
        }
    }
    renewer.run_once(&renewed, now);
}

fn rows_owned_by(table: &LeaseTable, worker: &str) -> usize {
    table
        .rows
        .iter()
        .filter(|row| row.lease_owner.as_deref() == Some(worker))
        .count()
}

fn drive(worker: &mut ShardWorker, events: &[ConsumerEvent]) -> Vec<ConsumerAction> {
    events.iter().map(|event| worker.step(*event)).collect()
}

#[test]
fn cold_start_single_worker_takes_all_three() {
    let mut table = table_of(&["s1", "s2", "s3"]);
    let mut manager = LeaseManager::new(name("W1"), 1000, 1, FAILOVER);
    manager.initialize();
    let attempts = taker_pass(
        &mut manager.lease_taker,
        &mut manager.lease_renewer,
        &mut table,
        100 * SECOND,
    );
    assert_eq!(attempts, 3);
    assert_eq!(table.rows.len(), 3);
    for row in table.rows.iter() {
        assert_eq!(row.lease_owner, Some(name("W1")));
        assert_eq!(row.lease_counter, 1);
    }
    for lease in manager.lease_renewer.leases.iter() {
        assert_eq!(lease.lease_owner, Some(name("W1")));
        assert_eq!(lease.lease_counter, 1);
        assert_eq!(lease.last_renewal_nanos, 100 * SECOND);
    }

    let owned = manager.get_owned_leases();
    assert_eq!(owned.len(), 3);
    let mut scheduler = WorkerScheduler::new(10 * SECOND);
    let plan = scheduler.run_once(&owned);
    assert_eq!(plan.start.len(), 3);
    assert!(plan.stop.is_empty());
    assert_eq!(scheduler.consumers.len(), 3);
    for shard in plan.start {
        let mut consumer = ShardWorker::new(shard);
        let actions = drive(
            &mut consumer,
            &[
                ConsumerEvent::Start,
                ConsumerEvent::Start,
                ConsumerEvent::Initialized,
            ],
        );
        let initialized = actions
            .iter()
            .filter(|action| **action == ConsumerAction::Initialize)
            .count();
        assert_eq!(initialized, 1);
        assert_eq!(actions[2], ConsumerAction::Subscribe);
    }
    let again = scheduler.run_once(&owned);
    assert!(again.start.is_empty());
    assert!(again.stop.is_empty());
}

#[test]
fn peer_joins_and_steals_one_lease() {
    let mut table = table_of(&["s1", "s2", "s3"]);
    let mut first = LeaseManager::new(name("W1"), 1000, 1, FAILOVER);
    taker_pass(
        &mut first.lease_taker,
        &mut first.lease_renewer,
        &mut table,
        100 * SECOND,
    );
    assert_eq!(rows_owned_by(&table, "W1"), 3);
    let mut first_scheduler = WorkerScheduler::new(10 * SECOND);
    first_scheduler.run_once(&first.get_owned_leases());

    let mut second = LeaseManager::new(name("W2"), 1000, 1, FAILOVER);
    assert_eq!(rows_owned_by(&table, "W2"), 0);
    let attempts = taker_pass(
        &mut second.lease_taker,
        &mut second.lease_renewer,
        &mut table,
        101 * SECOND,
    );
    assert_eq!(attempts, 1);
    assert_eq!(rows_owned_by(&table, "W1"), 2);
    assert_eq!(rows_owned_by(&table, "W2"), 1);
    let attempts = taker_pass(
        &mut second.lease_taker,
        &mut second.lease_renewer,
        &mut table,
        111 * SECOND,
    );
    assert_eq!(attempts, 0);
    assert_eq!(rows_owned_by(&table, "W1"), 2);
    assert_eq!(rows_owned_by(&table, "W2"), 1);

    let stolen = second.lease_renewer.leases[0].lease_key.clone();
    renewer_pass(&mut first.lease_renewer, &mut table, 112 * SECOND);
    assert_eq!(first.lease_renewer.leases.len(), 2);
    assert!(first
        .lease_renewer
        .leases
        .iter()
        .all(|lease| lease.lease_key != stolen));
    let plan = first_scheduler.run_once(&first.get_owned_leases());
    assert!(plan.start.is_empty());
    assert_eq!(plan.stop.len(), 1);
    assert_eq!(plan.stop[0].shard_id, stolen);

    let mut consumer = ShardWorker::new(plan.stop[0].clone());
    drive(
        &mut consumer,
        &[ConsumerEvent::Start, ConsumerEvent::Initialized],
    );
    assert_eq!(
        consumer.step(ConsumerEvent::LeaseLostSignal),
        ConsumerAction::LeaseLost
    );
    assert_eq!(
        consumer.step(ConsumerEvent::CallbackReturned),
        ConsumerAction::Finish
    );
    assert!(consumer.is_shutdown());
    first_scheduler.remove_consumers(&plan.stop);
    assert_eq!(first_scheduler.consumers.len(), 2);
}

#[test]
fn failover_after_owner_stops_renewing() {
    let mut table = table_of(&["s1"]);
    let mut first = LeaseManager::new(name("W1"), 1000, 1, FAILOVER);
    taker_pass(
        &mut first.lease_taker,
        &mut first.lease_renewer,
        &mut table,
        100 * SECOND,
    );
    assert_eq!(rows_owned_by(&table, "W1"), 1);

    let mut second = LeaseManager::new(name("W2"), 1000, 1, FAILOVER);
    let start = 200 * SECOND;
    assert_eq!(
        taker_pass(
            &mut second.lease_taker,
            &mut second.lease_renewer,
            &mut table,
            start
        ),
        0
    );
    assert_eq!(
        taker_pass(
            &mut second.lease_taker,
            &mut second.lease_renewer,
            &mut table,
            start + FAILOVER
        ),
        0
    );
    assert_eq!(
        taker_pass(
            &mut second.lease_taker,
            &mut second.lease_renewer,
            &mut table,
            start + FAILOVER + 1
        ),
        1
    );
    assert_eq!(rows_owned_by(&table, "W2"), 1);
    assert_eq!(table.rows[0].lease_counter, 2);

    let writes = first.lease_renewer.renewals(101 * SECOND);
    assert_eq!(writes.len(), 1);
    assert!(!table.write(&writes[0]));
    first.lease_renewer.run_once(&Vec::new(), 101 * SECOND);
    assert!(first.lease_renewer.leases.is_empty());
    assert!(first.get_owned_leases().is_empty());
}

#[test]
fn shard_end_finishes_consumer_and_children_appear() {
    let shard = ShardInfo {
        shard_id: name("s1"),
        parent_shard_ids: Vec::new(),
    };
    let mut consumer = ShardWorker::new(shard.clone());
    let actions = drive(
        &mut consumer,
        &[
            ConsumerEvent::Start,
            ConsumerEvent::Initialized,
            ConsumerEvent::Batch {
                is_at_shard_end: true,
            },
            ConsumerEvent::Processed,
            ConsumerEvent::CallbackReturned,
        ],
    );
    assert_eq!(
        actions,
        vec![
            ConsumerAction::Initialize,
            ConsumerAction::Subscribe,
            ConsumerAction::Process,
            ConsumerAction::ShardEnded,
            ConsumerAction::Finish,
        ]
    );
    assert!(consumer.is_shutdown());

    let mut scheduler = WorkerScheduler::new(10 * SECOND);
    scheduler.run_once(&vec![shard.clone()]);
    let plan = scheduler.run_once(&Vec::new());
    assert_eq!(plan.stop.len(), 1);
    scheduler.remove_consumers(&plan.stop);
    assert!(scheduler.consumers.is_empty());

    let mut taker = LeaseTaker::new(name("W1"), 1000, 1, FAILOVER);
    let scan = vec![
        Lease::new(name("s1a"), None, 0),
        Lease::new(name("s1b"), None, 0),
    ];
    taker.update_leases_from_source(&scan, 500 * SECOND);
    assert_eq!(taker.all_leases.len(), 2);
    for lease in taker.all_leases.iter() {
        assert_eq!(lease.lease_owner, None);
        assert_eq!(lease.last_renewal_nanos, 0);
    }
}

#[test]
fn graceful_shutdown_drains_consumers_and_keeps_leases() {
    let mut table = table_of(&["s1", "s2", "s3"]);
    let mut manager = LeaseManager::new(name("W1"), 1000, 1, FAILOVER);
    manager.initialize();
    taker_pass(
        &mut manager.lease_taker,
        &mut manager.lease_renewer,
        &mut table,
        100 * SECOND,
    );
    let mut scheduler = WorkerScheduler::new(10 * SECOND);
    let plan = scheduler.run_once(&manager.get_owned_leases());
    let mut consumers: Vec<ShardWorker> = plan.start.into_iter().map(ShardWorker::new).collect();
    for consumer in consumers.iter_mut() {
        drive(
            consumer,
            &[
                ConsumerEvent::Start,
                ConsumerEvent::Initialized,
                ConsumerEvent::Batch {
                    is_at_shard_end: false,
                },
            ],
        );
    }

    assert!(scheduler.shutdown());
    assert!(!scheduler.shutdown());
    assert!(scheduler.should_shutdown());
    let draining = scheduler.before_shutdown_complete();
    assert_eq!(draining.len(), 3);
    for consumer in consumers.iter_mut() {
        assert_eq!(consumer.await_shutdown(), ConsumerAction::Wait);
        assert!(!consumer.is_shutdown());
        assert_eq!(
            consumer.step(ConsumerEvent::Processed),
            ConsumerAction::ShutdownRequested
        );
        assert_eq!(consumer.state.stage, ConsumerStage::Draining);
        assert!(!consumer.is_shutdown());
        assert_eq!(
            consumer.step(ConsumerEvent::CallbackReturned),
            ConsumerAction::Finish
        );
        assert!(consumer.is_shutdown());
    }

    let mut tasks = manager.start();
    assert_eq!(tasks.taker.step(LoopEvent::Begin), LoopAction::Run);
    assert_eq!(tasks.renewer.step(LoopEvent::Begin), LoopAction::Run);
    assert_eq!(
        tasks.taker.step(LoopEvent::RunDone {
            elapsed_nanos: SECOND
        }),
        LoopAction::Sleep {
            nanos: 10 * SECOND
        }
    );
    manager.shutdown();
    assert_eq!(
        tasks.taker.step(LoopEvent::Shutdown),
        LoopAction::BeforeShutdownComplete
    );
    assert_eq!(tasks.renewer.step(LoopEvent::Shutdown), LoopAction::Wait);
    assert_eq!(
        tasks.renewer.step(LoopEvent::RunDone {
            elapsed_nanos: SECOND
        }),
        LoopAction::BeforeShutdownComplete
    );
    assert_eq!(
        tasks.taker.step(LoopEvent::HookDone),
        LoopAction::NotifyShutdownComplete
    );
    assert_eq!(
        tasks.renewer.step(LoopEvent::HookDone),
        LoopAction::NotifyShutdownComplete
    );
    assert_eq!(tasks.taker.step(LoopEvent::SleepDone), LoopAction::Wait);
    assert_eq!(tasks.taker.phase, LoopPhase::Finished);
    assert!(tasks.renewer.is_finished());
    scheduler.notify_shutdown_complete();
    assert!(scheduler.shutdown_complete);
    assert!(manager.shutdown);
    assert_eq!(rows_owned_by(&table, "W1"), 3);
}

fn current_holders(table: &LeaseTable, fleet: &[LeaseManager], key: &str) -> Vec<String> {
    let row = table.rows.iter().find(|row| row.lease_key == key).unwrap();
    fleet
        .iter()
        .filter(|manager| {
            manager.lease_renewer.leases.iter().any(|lease| {
                lease.lease_key == key
                    && lease.lease_counter == row.lease_counter
                    && lease.lease_owner.as_ref() == Some(&manager.lease_taker.worker_identifier)
            })
        })
        .map(|manager| manager.lease_taker.worker_identifier.clone())
        .collect()
}

fn check_single_holders(table: &LeaseTable, fleet: &[LeaseManager]) {
    for row in table.rows.iter() {
        let holders = current_holders(table, fleet, &row.lease_key);
        assert!(holders.len() <= 1);
        if let Some(holder) = holders.first() {
            assert_eq!(row.lease_owner.as_ref(), Some(holder));
        }
    }
}

#[test]
fn fleet_comes_to_rest_in_balance_with_one_holder_per_lease() {
    let keys: Vec<String> = (0..7).map(|i| format!("s{}", i)).collect();
    let key_refs: Vec<&str> = keys.iter().map(|key| key.as_str()).collect();
    let mut table = table_of(&key_refs);
    let mut fleet: Vec<LeaseManager> = Vec::new();
    let mut now = 100 * SECOND;
    for joining in ["W1", "W2", "W3"] {
        fleet.push(LeaseManager::new(name(joining), 1000, 1, FAILOVER));
        for _ in 0..12 {
            now += SECOND;
            for i in 0..fleet.len() {
                let manager = &mut fleet[i];
                taker_pass(
                    &mut manager.lease_taker,
                    &mut manager.lease_renewer,
                    &mut table,
                    now,
                );
                check_single_holders(&table, &fleet);
                let manager = &mut fleet[i];
                renewer_pass(&mut manager.lease_renewer, &mut table, now);
                check_single_holders(&table, &fleet);
            }
        }
        let held: Vec<usize> = fleet
            .iter()
            .map(|manager| manager.lease_renewer.leases.len())
            .collect();
        assert_eq!(held.iter().sum::<usize>(), 7);
        let most = *held.iter().max().unwrap();
        let least = *held.iter().min().unwrap();
        assert!(most - least <= 1);
        for manager in fleet.iter() {
            assert_eq!(
                rows_owned_by(&table, &manager.lease_taker.worker_identifier),
                manager.lease_renewer.leases.len()
            );
            assert!(manager.is_wf());
        }
    }
    for i in 0..fleet.len() {
        let manager = &mut fleet[i];
        let attempts = taker_pass(
            &mut manager.lease_taker,
            &mut manager.lease_renewer,
            &mut table,
            now + SECOND,
        );
        assert_eq!(attempts, 0);
    }
}
