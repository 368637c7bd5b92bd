//! The worker scheduler: keeps the set of running shard consumers in step
//! with the set of shards whose leases the worker holds.
use vstd::prelude::*;
use crate::lease::{ShardInfo, ShardInfoView, has_shard, names_view, shard_ids, shard_views};
use crate::manager::{LeaseManager, ManagerTasks, RENEWER_INTERVAL_NANOS, TAKER_DELAY_NANOS};
use crate::runnable::{Cadence, LoopPhase, PeriodicTask};

verus! {

/// Whether a shard's parents are all finished: none of them is among the
/// shards with the ids `owned`.
pub open spec fn parents_done(shard: ShardInfoView, owned: Seq<Seq<char>>) -> bool {
    forall|k: int|
        0 <= k < shard.parent_shard_ids.len() ==> !owned.contains(
            #[trigger] shard.parent_shard_ids[k],
        )
}

/// The consumers to start: each shard of `owned`, once, that has no consumer
/// among `running` and whose parents are all finished, in the order of
/// `owned`. `held` are the ids of all shards owned.
pub open spec fn to_start(running: Seq<Seq<char>>, owned: Seq<ShardInfoView>, held: Seq<Seq<char>>)
    -> Seq<ShardInfoView>
    decreases owned.len(),
{
    if owned.len() == 0 {
        Seq::empty()
    } else {
        let earlier = to_start(running, owned.drop_last(), held);
        let shard = owned.last();
        if !running.contains(shard.shard_id) && !shard_ids(earlier).contains(shard.shard_id)
            && parents_done(shard, held) {
            earlier.push(shard)
        } else {
            earlier
        }
    }
}

/// The consumers to stop: those of `running` whose shard is not among the
/// ids `held`, in order.
pub open spec fn to_stop(running: Seq<ShardInfoView>, held: Seq<Seq<char>>) -> Seq<ShardInfoView>
    decreases running.len(),
{
    if running.len() == 0 {
        Seq::empty()
    } else {
        let earlier = to_stop(running.drop_last(), held);
        if held.contains(running.last().shard_id) {
            earlier
        } else {
            earlier.push(running.last())
        }
    }
}

/// No two shards share an id.
pub open spec fn distinct_shards(shards: Seq<ShardInfoView>) -> bool {
    forall|i: int, j: int|
        0 <= i < j < shards.len() ==> (#[trigger] shards[i]).shard_id != (
        #[trigger] shards[j]).shard_id
}

/// What a reconcile pass asks for.
pub struct Reconciliation {
    /// Shards for which to create and start a consumer.
    pub start: Vec<ShardInfo>,
    /// Shards whose consumer to shut down and then to remove.
    pub stop: Vec<ShardInfo>,
}

/// The consumers a worker runs, and whether it is shutting down.
pub struct WorkerScheduler {
    pub consumers: Vec<ShardInfo>,
    pub should_shutdown: bool,
    pub shutdown_complete: bool,
    pub interval_nanos: u64,
}

/// Whether every parent of `shard` is finished.
pub fn check_parents_done(shard: &ShardInfo, owned: &Vec<ShardInfo>) -> (done: bool)
    ensures
        done == parents_done(shard@, shard_ids(shard_views(owned@))),
{
    let ghost held = shard_ids(shard_views(owned@));
    let ghost parents = names_view(shard.parent_shard_ids@);
    let mut k: usize = 0;
    while k < shard.parent_shard_ids.len()
        invariant
            k <= shard.parent_shard_ids.len(),
            held == shard_ids(shard_views(owned@)),
            parents == shard@.parent_shard_ids,
            forall|j: int| 0 <= j < k ==> !held.contains(#[trigger] parents[j]),
        decreases shard.parent_shard_ids.len() - k,
    {
        if has_shard(owned, &shard.parent_shard_ids[k]) {
            assert(held.contains(parents[k as int]));
            return false;
        }
        k += 1;
    }
    true
}

impl WorkerScheduler {
    /// The shards with a consumer.
    pub open spec fn running(&self) -> Seq<ShardInfoView> {
        shard_views(self.consumers@)
    }

    /// Each shard has at most one consumer.
    pub open spec fn wf(&self) -> bool {
        distinct_shards(self.running())
    }

    /// Whether each shard has at most one consumer.
    pub fn is_wf(&self) -> (ok: bool)
        ensures
            ok == self.wf(),
    {
        let ghost s = self.running();
        let mut j: usize = 0;
        while j < self.consumers.len()
            invariant
                j <= self.consumers.len(),
                s == self.running(),
                forall|a: int, b: int|
                    0 <= a < b < j ==> (#[trigger] s[a]).shard_id != (#[trigger] s[b]).shard_id,
            decreases self.consumers.len() - j,
        {
            let mut i: usize = 0;
            while i < j
                invariant
                    i <= j < self.consumers.len(),
                    s == self.running(),
                    forall|a: int| 0 <= a < i ==> (#[trigger] s[a]).shard_id != s[j as int].shard_id,
                decreases j - i,
            {
                if self.consumers[i].same_shard(&self.consumers[j]) {
                    assert(s[i as int].shard_id == s[j as int].shard_id);
                    return false;
                }
                i += 1;
            }
            j += 1;
        }
        true
    }

    /// A scheduler that runs no consumer and reconciles every
    /// `interval_nanos`.
    pub fn new(interval_nanos: u64) -> (scheduler: WorkerScheduler)
        ensures
            scheduler.wf(),
            scheduler.running() == Seq::<ShardInfoView>::empty(),
            !scheduler.should_shutdown,
            !scheduler.shutdown_complete,
            scheduler.interval_nanos == interval_nanos,
    {
        let scheduler = WorkerScheduler {
            consumers: Vec::new(),
            should_shutdown: false,
            shutdown_complete: false,
            interval_nanos,
        };
        assert(scheduler.running() =~= Seq::<ShardInfoView>::empty());
        scheduler
    }

    /// Gets the lease manager going: marks it ready and returns the periodic
    /// tasks to spawn for its taker and its renewer.
    pub fn initialize(&self, lease_manager: &mut LeaseManager) -> (tasks: ManagerTasks)
        ensures
            final(lease_manager).initialized,
            final(lease_manager).shutdown == old(lease_manager).shutdown,
            final(lease_manager).lease_taker == old(lease_manager).lease_taker,
            final(lease_manager).lease_renewer == old(lease_manager).lease_renewer,
            tasks.taker == (PeriodicTask {
                cadence: Cadence::FixedDelay,
                period_nanos: TAKER_DELAY_NANOS,
                phase: LoopPhase::Idle,
                shutdown: false,
            }),
            tasks.renewer == (PeriodicTask {
                cadence: Cadence::FixedInterval,
                period_nanos: RENEWER_INTERVAL_NANOS,
                phase: LoopPhase::Idle,
                shutdown: false,
            }),
    {
        lease_manager.initialize();
        lease_manager.start()
    }

    /// One reconcile pass over the shards whose leases the worker holds:
    /// registers a consumer for each owned shard that has none and may
    /// start, and names the consumers whose shard is no longer owned.
    pub fn run_once(&mut self, owned: &Vec<ShardInfo>) -> (plan: Reconciliation)
        requires
            old(self).wf(),
        ensures
            final(self).wf(),
            shard_views(plan.start@) == to_start(
                shard_ids(old(self).running()),
                shard_views(owned@),
                shard_ids(shard_views(owned@)),
            ),
            shard_views(plan.stop@) == to_stop(old(self).running(), shard_ids(shard_views(owned@))),
            final(self).running() == old(self).running() + shard_views(plan.start@),
            final(self).should_shutdown == old(self).should_shutdown,
            final(self).shutdown_complete == old(self).shutdown_complete,
            final(self).interval_nanos == old(self).interval_nanos,
    {
        let ghost before = self.running();
        let ghost assigned = shard_views(owned@);
        let ghost held = shard_ids(assigned);
        let mut stop: Vec<ShardInfo> = Vec::new();
        let mut j: usize = 0;
        while j < self.consumers.len()
            invariant
                j <= self.consumers.len(),
                before == self.running(),
                held == shard_ids(shard_views(owned@)),
                shard_views(stop@) == to_stop(before.take(j as int), held),
            decreases self.consumers.len() - j,
        {
            proof {
                assert(before.take(j + 1).drop_last() =~= before.take(j as int));
                assert(before.take(j + 1).last() == self.consumers[j as int]@);
            }
            if !has_shard(owned, &self.consumers[j].shard_id) {
                let ghost earlier = shard_views(stop@);
                let copy = self.consumers[j].duplicate();
                stop.push(copy);
                assert(shard_views(stop@) =~= earlier.push(copy@));
            }
            j += 1;
        }
        assert(before.take(self.consumers.len() as int) =~= before);
        let mut start: Vec<ShardInfo> = Vec::new();
        let mut i: usize = 0;
        assert(self.running() =~= before + shard_views(start@));
        while i < owned.len()
            invariant
                i <= owned.len(),
                assigned == shard_views(owned@),
                held == shard_ids(assigned),
                distinct_shards(before),
                shard_views(start@) == to_start(shard_ids(before), assigned.take(i as int), held),
                self.running() == before + shard_views(start@),
                distinct_shards(self.running()),
                self.should_shutdown == old(self).should_shutdown,
                self.shutdown_complete == old(self).shutdown_complete,
                self.interval_nanos == old(self).interval_nanos,
            decreases owned.len() - i,
        {
            let shard = &owned[i];
            let ghost chosen = shard_views(start@);
            let ghost current = self.running();
            proof {
                assert(assigned.take(i + 1).drop_last() =~= assigned.take(i as int));
                assert(assigned.take(i + 1).last() == shard@);
                assert(shard_ids(current) =~= shard_ids(before) + shard_ids(chosen));
                if shard_ids(current).contains(shard@.shard_id) {
                    let k = choose|k: int|
                        0 <= k < shard_ids(current).len() && shard_ids(current)[k]
                            == shard@.shard_id;
                    if k < before.len() {
                        assert(shard_ids(before)[k] == shard@.shard_id);
                    } else {
                        assert(shard_ids(chosen)[k - before.len()] == shard@.shard_id);
                    }
                }
                if shard_ids(before).contains(shard@.shard_id) {
                    let k = choose|k: int|
                        0 <= k < shard_ids(before).len() && shard_ids(before)[k] == shard@.shard_id;
                    assert(shard_ids(current)[k] == shard@.shard_id);
                }
                if shard_ids(chosen).contains(shard@.shard_id) {
                    let k = choose|k: int|
                        0 <= k < shard_ids(chosen).len() && shard_ids(chosen)[k] == shard@.shard_id;
                    assert(shard_ids(current)[before.len() + k] == shard@.shard_id);
                }
            }
            if !has_shard(&self.consumers, &shard.shard_id) && check_parents_done(shard, owned) {
                let copy = shard.duplicate();
                let second = shard.duplicate();
                start.push(copy);
                self.consumers.push(second);
                proof {
                    assert(shard_views(start@) =~= chosen.push(shard@));
                    assert(self.running() =~= current.push(shard@));
                    assert(self.running() =~= before + shard_views(start@));
                    assert forall|a: int, b: int|
                        0 <= a < b < self.running().len() implies (
                    #[trigger] self.running()[a]).shard_id != (
                    #[trigger] self.running()[b]).shard_id by {
                        if b < current.len() {
                            assert(current[a].shard_id != current[b].shard_id);
                        } else {
                            assert(shard_ids(current)[a] == current[a].shard_id);
                        }
                    }
                }
            }
            i += 1;
        }
        assert(assigned.take(owned.len() as int) =~= assigned);
        Reconciliation { start, stop }
    }

    /// Forgets the consumers of the shards in `stopped`, once they have shut
    /// down.
    pub fn remove_consumers(&mut self, stopped: &Vec<ShardInfo>)
        requires
            old(self).wf(),
        ensures
            final(self).wf(),
            final(self).running() == to_stop(
                old(self).running(),
                shard_ids(shard_views(stopped@)),
            ),
            final(self).should_shutdown == old(self).should_shutdown,
            final(self).shutdown_complete == old(self).shutdown_complete,
            final(self).interval_nanos == old(self).interval_nanos,
    {
        let ghost before = self.running();
        let ghost gone = shard_ids(shard_views(stopped@));
        let mut kept: Vec<ShardInfo> = Vec::new();
        let mut j: usize = 0;
        while j < self.consumers.len()
            invariant
                j <= self.consumers.len(),
                before == self.running(),
                gone == shard_ids(shard_views(stopped@)),
                shard_views(kept@) == to_stop(before.take(j as int), gone),
            decreases self.consumers.len() - j,
        {
            proof {
                assert(before.take(j + 1).drop_last() =~= before.take(j as int));
                assert(before.take(j + 1).last() == self.consumers[j as int]@);
            }
            if !has_shard(stopped, &self.consumers[j].shard_id) {
                let ghost earlier = shard_views(kept@);
                let copy = self.consumers[j].duplicate();
                kept.push(copy);
                assert(shard_views(kept@) =~= earlier.push(copy@));
            }
            j += 1;
        }
        proof {
            assert(before.take(self.consumers.len() as int) =~= before);
            lemma_to_stop(before, gone);
        }
        self.consumers = kept;
    }

    /// Whether the reconcile loop should stop.
    pub fn should_shutdown(&self) -> (stop: bool)
        ensures
            stop == self.should_shutdown,
    {
        self.should_shutdown
    }

    /// The pause between the starts of two reconcile passes, in nanoseconds.
    pub fn get_interval(&self) -> (nanos: u64)
        ensures
            nanos == self.interval_nanos,
    {
        self.interval_nanos
    }

    /// Asks the scheduler to shut down. Returns whether this request is the
    /// first; only the first starts the shutdown, later ones just wait for it
    /// to complete.
    pub fn shutdown(&mut self) -> (first: bool)
        ensures
            first == !old(self).should_shutdown,
            final(self).should_shutdown,
            final(self).consumers == old(self).consumers,
            final(self).shutdown_complete == old(self).shutdown_complete,
            final(self).interval_nanos == old(self).interval_nanos,
    {
        let first = !self.should_shutdown;
        self.should_shutdown = true;
        first
    }

    /// Runs before the shutdown completes: hands out every consumer, to be
    /// shut down, and forgets them all.
    pub fn before_shutdown_complete(&mut self) -> (consumers: Vec<ShardInfo>)
        ensures
            consumers == old(self).consumers,
            final(self).running() == Seq::<ShardInfoView>::empty(),
            final(self).wf(),
            final(self).should_shutdown == old(self).should_shutdown,
            final(self).shutdown_complete == old(self).shutdown_complete,
            final(self).interval_nanos == old(self).interval_nanos,
    {
        let mut consumers: Vec<ShardInfo> = Vec::new();
        std::mem::swap(&mut consumers, &mut self.consumers);
        assert(self.running() =~= Seq::<ShardInfoView>::empty());
        consumers
    }

    /// Marks the shutdown as complete.
    pub fn notify_shutdown_complete(&mut self)
        ensures
            final(self).shutdown_complete,
            final(self).consumers == old(self).consumers,
            final(self).should_shutdown == old(self).should_shutdown,
            final(self).interval_nanos == old(self).interval_nanos,
    {
        self.shutdown_complete = true;
    }
}

/// Stopping consumers keeps the others in order, each once.
pub proof fn lemma_to_stop(running: Seq<ShardInfoView>, held: Seq<Seq<char>>)
    ensures
        to_stop(running, held).len() <= running.len(),
        forall|k: int|
            0 <= k < to_stop(running, held).len() ==> !held.contains(
                (#[trigger] to_stop(running, held)[k]).shard_id,
            ) && running.contains(to_stop(running, held)[k]),
        forall|i: int|
            0 <= i < running.len() && !held.contains((#[trigger] running[i]).shard_id) ==> to_stop(
                running,
                held,
            ).contains(running[i]),
        distinct_shards(running) ==> distinct_shards(to_stop(running, held)),
    decreases running.len(),
{
    if running.len() > 0 {
        let front = running.drop_last();
        let earlier = to_stop(front, held);
        let out = to_stop(running, held);
        lemma_to_stop(front, held);
        assert forall|k: int| 0 <= k < out.len() implies !held.contains(
            (#[trigger] out[k]).shard_id,
        ) && running.contains(out[k]) by {
            if k < earlier.len() {
                assert(front.contains(earlier[k]));
                let i = choose|i: int| 0 <= i < front.len() && front[i] == earlier[k];
                assert(running[i] == out[k]);
            } else {
                assert(running[running.len() - 1] == out[k]);
            }
        }
        assert forall|i: int|
            0 <= i < running.len() && !held.contains(
                (#[trigger] running[i]).shard_id,
            ) implies out.contains(running[i]) by {
            if i < front.len() {
                assert(front[i] == running[i]);
                assert(earlier.contains(front[i]));
                let k = choose|k: int| 0 <= k < earlier.len() && earlier[k] == front[i];
                assert(out[k] == running[i]);
            } else {
                assert(out[out.len() - 1] == running[i]);
            }
        }
        if distinct_shards(running) {
            assert(distinct_shards(front)) by {
                assert forall|i: int, j: int| 0 <= i < j < front.len() implies (
                #[trigger] front[i]).shard_id != (#[trigger] front[j]).shard_id by {
                    assert(running[i].shard_id != running[j].shard_id);
                }
            }
            assert forall|a: int, b: int| 0 <= a < b < out.len() implies (
            #[trigger] out[a]).shard_id != (#[trigger] out[b]).shard_id by {
                if b == earlier.len() {
                    assert(front.contains(earlier[a]));
                    let i = choose|i: int| 0 <= i < front.len() && front[i] == earlier[a];
                    assert(running[i].shard_id != running[running.len() - 1].shard_id);
                }
            }
        }
    }
}

/// A list holds a shard with a given id exactly when it holds a shard whose
/// id that is.
pub proof fn lemma_shard_ids(shards: Seq<ShardInfoView>, id: Seq<char>)
    ensures
        shard_ids(shards).contains(id) <==> exists|i: int|
            0 <= i < shards.len() && (#[trigger] shards[i]).shard_id == id,
{
    if shard_ids(shards).contains(id) {
        let i = choose|i: int| 0 <= i < shard_ids(shards).len() && shard_ids(shards)[i] == id;
        assert(shards[i].shard_id == id);
    }
    if exists|i: int| 0 <= i < shards.len() && (#[trigger] shards[i]).shard_id == id {
        let i = choose|i: int| 0 <= i < shards.len() && (#[trigger] shards[i]).shard_id == id;
        assert(shard_ids(shards)[i] == id);
    }
}

/// The consumers to start are owned shards without a consumer whose parents
/// are finished, and every such shard is among them.
pub proof fn lemma_to_start(running: Seq<Seq<char>>, owned: Seq<ShardInfoView>, held: Seq<Seq<char>>)
    ensures
        forall|k: int|
            0 <= k < to_start(running, owned, held).len() ==> {
                let shard = #[trigger] to_start(running, owned, held)[k];
                &&& owned.contains(shard)
                &&& !running.contains(shard.shard_id)
                &&& parents_done(shard, held)
            },
        forall|i: int|
            0 <= i < owned.len() && !running.contains((#[trigger] owned[i]).shard_id)
                && parents_done(owned[i], held) ==> shard_ids(to_start(running, owned, held)).contains(
                owned[i].shard_id,
            ),
        distinct_shards(to_start(running, owned, held)),
    decreases owned.len(),
{
    if owned.len() > 0 {
        let front = owned.drop_last();
        let earlier = to_start(running, front, held);
        let out = to_start(running, owned, held);
        let last = owned.last();
        lemma_to_start(running, front, held);
        assert forall|k: int| 0 <= k < out.len() implies {
            let shard = #[trigger] out[k];
            &&& owned.contains(shard)
            &&& !running.contains(shard.shard_id)
            &&& parents_done(shard, held)
        } by {
            if k < earlier.len() {
                assert(front.contains(earlier[k]));
                let i = choose|i: int| 0 <= i < front.len() && front[i] == earlier[k];
                assert(owned[i] == out[k]);
            } else {
                assert(owned[owned.len() - 1] == out[k]);
            }
        }
        assert forall|i: int|
            0 <= i < owned.len() && !running.contains((#[trigger] owned[i]).shard_id)
                && parents_done(owned[i], held) implies shard_ids(out).contains(
            owned[i].shard_id,
        ) by {
            lemma_shard_ids(out, owned[i].shard_id);
            lemma_shard_ids(earlier, owned[i].shard_id);
            if i < front.len() {
                assert(front[i] == owned[i]);
                let k = choose|k: int|
                    0 <= k < earlier.len() && (#[trigger] earlier[k]).shard_id == owned[i].shard_id;
                assert(out[k].shard_id == owned[i].shard_id);
            } else if shard_ids(earlier).contains(last.shard_id) {
                let k = choose|k: int|
                    0 <= k < earlier.len() && (#[trigger] earlier[k]).shard_id == last.shard_id;
                assert(out[k].shard_id == last.shard_id);
            } else {
                assert(out[out.len() - 1].shard_id == last.shard_id);
            }
        }
        assert forall|a: int, b: int| 0 <= a < b < out.len() implies (
        #[trigger] out[a]).shard_id != (#[trigger] out[b]).shard_id by {
            if b == earlier.len() {
                lemma_shard_ids(earlier, last.shard_id);
            }
        }
    }
}

/// After a reconcile pass, once the consumers it named have shut down and
/// are removed, the shards with a consumer are the shards owned. This holds
/// when no owned shard waits for a parent to finish.
pub proof fn lemma_reconciled(running: Seq<ShardInfoView>, owned: Seq<ShardInfoView>)
    requires
        forall|k: int| 0 <= k < owned.len() ==> parents_done(#[trigger] owned[k], shard_ids(owned)),
    ensures
        forall|id: Seq<char>| #[trigger]
            shard_ids(
                to_stop(
                    running + to_start(shard_ids(running), owned, shard_ids(owned)),
                    shard_ids(to_stop(running, shard_ids(owned))),
                ),
            ).contains(id) <==> shard_ids(owned).contains(id),
{
    let held = shard_ids(owned);
    let started = to_start(shard_ids(running), owned, held);
    let stopped = to_stop(running, held);
    let gone = shard_ids(stopped);
    let grown = running + started;
    let after = to_stop(grown, gone);
    lemma_to_start(shard_ids(running), owned, held);
    lemma_to_stop(running, held);
    lemma_to_stop(grown, gone);
    assert forall|id: Seq<char>| #[trigger] shard_ids(after).contains(id) <==> held.contains(id) by {
        lemma_shard_ids(after, id);
        lemma_shard_ids(owned, id);
        lemma_shard_ids(stopped, id);
        lemma_shard_ids(running, id);
        lemma_shard_ids(started, id);
        if shard_ids(after).contains(id) {
            let k = choose|k: int| 0 <= k < after.len() && (#[trigger] after[k]).shard_id == id;
            assert(grown.contains(after[k]));
            let g = choose|g: int| 0 <= g < grown.len() && grown[g] == after[k];
            if g < running.len() {
                assert(running[g] == after[k]);
                if !held.contains(id) {
                    assert(stopped.contains(running[g]));
                    let t = choose|t: int| 0 <= t < stopped.len() && stopped[t] == running[g];
                    assert(stopped[t].shard_id == id);
                }
            } else {
                assert(started[g - running.len()] == after[k]);
                assert(owned.contains(started[g - running.len()]));
                let o = choose|o: int| 0 <= o < owned.len() && owned[o] == started[g - running.len()];
                assert(owned[o].shard_id == id);
            }
        }
        if held.contains(id) {
            assert(!gone.contains(id)) by {
                if gone.contains(id) {
                    let t = choose|t: int|
                        0 <= t < stopped.len() && (#[trigger] stopped[t]).shard_id == id;
                    assert(!held.contains(stopped[t].shard_id));
                }
            }
            if shard_ids(running).contains(id) {
                let r = choose|r: int| 0 <= r < running.len() && (#[trigger] running[r]).shard_id == id;
                assert(grown[r] == running[r]);
                assert(after.contains(grown[r]));
                let k = choose|k: int| 0 <= k < after.len() && after[k] == grown[r];
                assert(after[k].shard_id == id);
            } else {
                let o = choose|o: int| 0 <= o < owned.len() && (#[trigger] owned[o]).shard_id == id;
                assert(shard_ids(started).contains(owned[o].shard_id));
                let n = choose|n: int| 0 <= n < started.len() && (#[trigger] started[n]).shard_id == id;
                assert(grown[running.len() + n] == started[n]);
                assert(after.contains(grown[running.len() + n]));
                let k = choose|k: int| 0 <= k < after.len() && after[k] == grown[running.len() + n];
                assert(after[k].shard_id == id);
            }
        }
    }
}

} // verus!
