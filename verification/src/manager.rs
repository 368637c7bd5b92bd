//! The lease manager: one taker and one renewer, and the shards the worker
//! owns according to them.
use vstd::prelude::*;
use crate::lease::{LeaseView, ShardInfo};
use crate::renewer::LeaseRenewer;
use crate::runnable::{Cadence, LoopPhase, PeriodicTask};
use crate::taker::LeaseTaker;

verus! {

/// The pause after each pass of the taker, in nanoseconds.
pub const TAKER_DELAY_NANOS: u64 = 10_000_000_000;

/// The time between the starts of two passes of the renewer, in nanoseconds.
pub const RENEWER_INTERVAL_NANOS: u64 = 10_000_000_000;

/// A worker's taker and renewer.
pub struct LeaseManager {
    pub initialized: bool,
    pub shutdown: bool,
    pub lease_taker: LeaseTaker,
    pub lease_renewer: LeaseRenewer,
}

/// The two periodic tasks of a lease manager.
pub struct ManagerTasks {
    /// Runs the taker, with a fixed delay after each pass.
    pub taker: PeriodicTask,
    /// Runs the renewer, at fixed intervals.
    pub renewer: PeriodicTask,
}

impl LeaseManager {
    /// The taker and the renewer each hold one lease per key.
    pub open spec fn wf(&self) -> bool {
        self.lease_taker.wf() && self.lease_renewer.wf()
    }

    /// Whether the taker and the renewer each hold one lease per key.
    pub fn is_wf(&self) -> (ok: bool)
        ensures
            ok == self.wf(),
    {
        self.lease_taker.is_wf() && self.lease_renewer.is_wf()
    }

    /// A manager for worker `worker_identifier` that is not initialized and
    /// holds no lease.
    pub fn new(
        worker_identifier: String,
        max_allowed_leases: usize,
        max_steals_per_run: usize,
        failover_nanos: u64,
    ) -> (manager: LeaseManager)
        ensures
            manager.wf(),
            !manager.initialized,
            !manager.shutdown,
            manager.lease_taker.shadow() == Seq::<LeaseView>::empty(),
            manager.lease_renewer.held() == Seq::<LeaseView>::empty(),
            manager.lease_taker.worker_identifier@ == worker_identifier@,
            manager.lease_taker.max_allowed_leases == max_allowed_leases,
            manager.lease_taker.max_steals_per_run == max_steals_per_run,
            manager.lease_taker.failover_nanos == failover_nanos,
            manager.lease_renewer.failover_nanos == failover_nanos,
    {
        LeaseManager {
            initialized: false,
            shutdown: false,
            lease_taker: LeaseTaker::new(
                worker_identifier,
                max_allowed_leases,
                max_steals_per_run,
                failover_nanos,
            ),
            lease_renewer: LeaseRenewer::new(failover_nanos),
        }
    }

    /// Marks the manager ready. Doing so again changes nothing.
    pub fn initialize(&mut self)
        ensures
            final(self).initialized,
            final(self).shutdown == old(self).shutdown,
            final(self).lease_taker == old(self).lease_taker,
            final(self).lease_renewer == old(self).lease_renewer,
    {
        self.initialized = true;
    }

    /// The periodic tasks to spawn: the taker with a fixed delay, so that
    /// long passes do not pile up, and the renewer at fixed intervals, so
    /// that renewals stay on time. The manager must be initialized.
    pub fn start(&self) -> (tasks: ManagerTasks)
        requires
            self.initialized,
        ensures
            tasks.taker == (PeriodicTask {
                cadence: Cadence::FixedDelay,
                period_nanos: TAKER_DELAY_NANOS,
                phase: LoopPhase::Idle,
                shutdown: false,
            }),
            tasks.renewer == (PeriodicTask {
                cadence: Cadence::FixedInterval,
                period_nanos: RENEWER_INTERVAL_NANOS,
                phase: LoopPhase::Idle,
                shutdown: false,
            }),
    {
        ManagerTasks {
            taker: PeriodicTask::new(Cadence::FixedDelay, TAKER_DELAY_NANOS),
            renewer: PeriodicTask::new(Cadence::FixedInterval, RENEWER_INTERVAL_NANOS),
        }
    }

    /// The shards whose leases the worker holds: one for each lease of the
    /// renewer, in order.
    pub fn get_owned_leases(&self) -> (shards: Vec<ShardInfo>)
        ensures
            shards.len() == self.lease_renewer.held().len(),
            forall|i: int|
                0 <= i < shards.len() ==> (#[trigger] shards[i])@.shard_id
                    == self.lease_renewer.held()[i].lease_key && shards[i]@.parent_shard_ids.len()
                    == 0,
    {
        self.lease_renewer.owned_shards()
    }

    /// Marks the manager as shutting down. The leases are left as they are:
    /// they expire by themselves, and a peer takes over.
    pub fn shutdown(&mut self)
        ensures
            final(self).shutdown,
            final(self).initialized == old(self).initialized,
            final(self).lease_taker == old(self).lease_taker,
            final(self).lease_renewer == old(self).lease_renewer,
    {
        self.shutdown = true;
    }
}

} // verus!
