//! The lease taker: keeps a worker's picture of the whole lease table up to
//! date and decides, pass by pass, which leases the worker should try to
//! acquire.
use vstd::prelude::*;
use crate::counts::{
    WorkerCount, active_workers, available_slots, busiest_index, busiest_worker, compute_steal_count,
    compute_target, count_leases, find_worker, lemma_busiest_index, lemma_tally_len, lists_worker,
    live_count, steal_count, tallies, target_count,
};
use crate::lease::{Lease, LeaseView, names_view};
use crate::renewer::{LeaseRenewer, add_all};
use crate::pick::{
    draw_shuffled, drawn_from, expired_among, expired_of, lemma_drawn_distinct, lemma_expired_of,
    lemma_owned_of, lemma_splits_drawn, owned_among, owned_of, sample_shuffled, splits,
};
use crate::shadow::{
    distinct_keys, find_lease, has_distinct_keys, lemma_position, lemma_upsert, lookup,
    refresh_leases, refreshed, upsert, views,
};

verus! {

/// A worker's picture of the lease table, with the settings that govern how
/// many leases it takes.
pub struct LeaseTaker {
    pub all_leases: Vec<Lease>,
    pub last_scan_time: u64,
    pub worker_identifier: String,
    pub max_allowed_leases: usize,
    pub max_steals_per_run: usize,
    pub failover_nanos: u64,
}

/// `victim` is a worker that counts towards the target and no such worker
/// holds more live leases.
pub open spec fn is_busiest(
    s: Seq<LeaseView>,
    expired: Seq<LeaseView>,
    me: Seq<char>,
    victim: Seq<char>,
) -> bool {
    &&& active_workers(s, expired, me).contains(victim)
    &&& forall|w: Seq<char>|
        active_workers(s, expired, me).contains(w) ==> #[trigger] live_count(s, expired, w)
            <= live_count(s, expired, victim)
}

impl LeaseTaker {
    /// The picture holds one lease per key.
    pub open spec fn wf(&self) -> bool {
        distinct_keys(views(self.all_leases@))
    }

    /// The leases this worker knows of.
    pub open spec fn shadow(&self) -> Seq<LeaseView> {
        views(self.all_leases@)
    }

    /// The settings and identity, which no pass changes.
    pub open spec fn same_settings(&self, other: &LeaseTaker) -> bool {
        &&& self.worker_identifier@ == other.worker_identifier@
        &&& self.max_allowed_leases == other.max_allowed_leases
        &&& self.max_steals_per_run == other.max_steals_per_run
        &&& self.failover_nanos == other.failover_nanos
    }

    /// Leases this worker holds that are not among `expired`.
    pub open spec fn held(&self, expired: Seq<LeaseView>) -> nat {
        live_count(self.shadow(), expired, self.worker_identifier@)
    }

    /// The number of leases this worker should hold.
    pub open spec fn target(&self, expired: Seq<LeaseView>) -> nat {
        target_count(
            self.shadow().len(),
            active_workers(self.shadow(), expired, self.worker_identifier@).len(),
            self.max_allowed_leases as nat,
        )
    }

    /// How many more leases this worker may take.
    pub open spec fn available(&self, expired: Seq<LeaseView>) -> nat {
        available_slots(self.target(expired), self.held(expired))
    }

    /// `picked` is a steal from `victim`: the victim is a busiest worker and
    /// the leases are drawn from those it owns, as many as the steal rule
    /// allows.
    pub open spec fn steals(
        &self,
        expired: Seq<LeaseView>,
        victim: Seq<char>,
        picked: Seq<LeaseView>,
    ) -> bool {
        &&& is_busiest(self.shadow(), expired, self.worker_identifier@, victim)
        &&& drawn_from(
            owned_of(self.shadow(), victim),
            picked,
            steal_count(
                live_count(self.shadow(), expired, victim),
                self.target(expired),
                self.available(expired),
                self.max_steals_per_run as nat,
            ),
        )
    }

    /// `picked` is what a pass may select when `pool` are the expired leases,
    /// and `rest` is what is left of the pool.
    ///
    /// Nothing is selected when the worker knows no lease or has no free
    /// slot. With expired leases at hand, as many of them as there are free
    /// slots are selected. Without, leases are stolen from a busiest worker.
    pub open spec fn selects(
        &self,
        pool: Seq<LeaseView>,
        rest: Seq<LeaseView>,
        picked: Seq<LeaseView>,
    ) -> bool {
        if self.shadow().len() == 0 || self.available(pool) == 0 {
            picked.len() == 0 && rest == pool
        } else if pool.len() > 0 {
            splits(pool, rest, picked, self.available(pool))
        } else {
            rest == pool && exists|victim: Seq<char>| self.steals(pool, victim, picked)
        }
    }

    /// Whether the picture holds one lease per key.
    pub fn is_wf(&self) -> (ok: bool)
        ensures
            ok == self.wf(),
    {
        has_distinct_keys(&self.all_leases)
    }

    /// A taker that knows no lease yet.
    pub fn new(
        worker_identifier: String,
        max_allowed_leases: usize,
        max_steals_per_run: usize,
        failover_nanos: u64,
    ) -> (taker: LeaseTaker)
        ensures
            taker.wf(),
            taker.shadow() == Seq::<LeaseView>::empty(),
            taker.last_scan_time == 0,
            taker.worker_identifier@ == worker_identifier@,
            taker.max_allowed_leases == max_allowed_leases,
            taker.max_steals_per_run == max_steals_per_run,
            taker.failover_nanos == failover_nanos,
    {
        let taker = LeaseTaker {
            all_leases: Vec::new(),
            last_scan_time: 0,
            worker_identifier,
            max_allowed_leases,
            max_steals_per_run,
            failover_nanos,
        };
        assert(taker.shadow() =~= Seq::<LeaseView>::empty());
        taker
    }

    /// Brings the picture in line with a scan of the table made at clock
    /// reading `scan_time`.
    pub fn update_leases_from_source(&mut self, source_leases: &Vec<Lease>, scan_time: u64)
        requires
            old(self).wf(),
        ensures
            final(self).wf(),
            final(self).shadow() == refreshed(old(self).shadow(), views(source_leases@), scan_time),
            final(self).last_scan_time == scan_time,
            final(self).same_settings(old(self)),
    {
        self.last_scan_time = scan_time;
        refresh_leases(&mut self.all_leases, source_leases, scan_time);
    }

    /// The known leases that are expired at clock reading `now`.
    pub fn expired_leases(&self, now: u64) -> (expired: Vec<Lease>)
        ensures
            views(expired@) == expired_of(self.shadow(), now, self.failover_nanos),
    {
        expired_among(&self.all_leases, now, self.failover_nanos)
    }

    /// Tallies the live leases by owner, this worker included.
    pub fn get_lease_counts(&self, expired_leases: &Vec<Lease>) -> (counts: Vec<WorkerCount>)
        ensures
            tallies(counts@, self.shadow(), views(expired_leases@), self.worker_identifier@),
    {
        count_leases(&self.all_leases, expired_leases, &self.worker_identifier)
    }

    /// Picks leases to steal from the busiest worker of `lease_counts`, for a
    /// worker that needs `needed_leases` more to reach `target`.
    pub fn get_leases_to_steal(
        &self,
        lease_counts: &Vec<WorkerCount>,
        needed_leases: usize,
        target: usize,
    ) -> (picked: Vec<Lease>)
        requires
            lease_counts.len() > 0,
        ensures
            drawn_from(
                owned_of(self.shadow(), lease_counts[busiest_index(lease_counts@)].worker@),
                views(picked@),
                steal_count(
                    lease_counts[busiest_index(lease_counts@)].count as nat,
                    target as nat,
                    needed_leases as nat,
                    self.max_steals_per_run as nat,
                ),
            ),
            picked.len() <= self.max_steals_per_run,
            self.wf() ==> distinct_keys(views(picked@)),
    {
        proof {
            let victim = lease_counts[busiest_index(lease_counts@)].worker@;
            lemma_owned_of(self.shadow(), victim);
        }
        let busiest = busiest_worker(lease_counts);
        let leases_to_steal = compute_steal_count(
            lease_counts[busiest].count,
            target,
            needed_leases,
            self.max_steals_per_run,
        );
        let stealable = owned_among(&self.all_leases, &lease_counts[busiest].worker);
        let picked = sample_shuffled(stealable, leases_to_steal);
        proof {
            if self.wf() {
                lemma_drawn_distinct(
                    views(stealable@),
                    views(picked@),
                    leases_to_steal as nat,
                );
            }
        }
        picked
    }

    /// Selects the leases to try to take in this pass. `expired_leases` are
    /// the leases found expired; those selected are removed from it.
    pub fn find_leases_to_take(&self, expired_leases: &mut Vec<Lease>) -> (picked: Vec<Lease>)
        ensures
            self.selects(views(old(expired_leases)@), views(final(expired_leases)@), views(picked@)),
            picked.len() > 0 ==> self.held(views(old(expired_leases)@)) < self.target(
                views(old(expired_leases)@),
            ),
            old(expired_leases).len() == 0 ==> picked.len() <= self.max_steals_per_run,
            self.wf() && distinct_keys(views(old(expired_leases)@)) ==> distinct_keys(
                views(picked@),
            ),
    {
        let ghost pool = views(expired_leases@);
        if self.all_leases.len() == 0 {
            let none: Vec<Lease> = Vec::new();
            assert(views(none@) =~= Seq::<LeaseView>::empty());
            return none;
        }
        let lease_counts = self.get_lease_counts(expired_leases);
        proof {
            lemma_tally_len(lease_counts@, self.shadow(), pool, self.worker_identifier@);
            assert(lists_worker(lease_counts@, self.worker_identifier@));
        }
        let target_count = compute_target(
            self.all_leases.len(),
            lease_counts.len(),
            self.max_allowed_leases,
        );
        let curr_lease_count = match find_worker(&lease_counts, &self.worker_identifier) {
            Some(k) => lease_counts[k].count,
            None => 0,
        };
        assert(curr_lease_count == self.held(pool));
        if target_count <= curr_lease_count {
            let none: Vec<Lease> = Vec::new();
            assert(views(none@) =~= Seq::<LeaseView>::empty());
            return none;
        }
        let available_slots = target_count - curr_lease_count;
        if expired_leases.len() > 0 {
            let picked = draw_shuffled(expired_leases, available_slots);
            proof {
                lemma_splits_drawn(
                    pool,
                    views(expired_leases@),
                    views(picked@),
                    available_slots as nat,
                );
                if distinct_keys(pool) {
                    lemma_drawn_distinct(pool, views(picked@), available_slots as nat);
                }
            }
            picked
        } else {
            let picked = self.get_leases_to_steal(&lease_counts, available_slots, target_count);
            proof {
                lemma_busiest_index(lease_counts@);
                let b = busiest_index(lease_counts@);
                let victim = lease_counts[b].worker@;
                assert(lists_worker(lease_counts@, victim));
                assert forall|w: Seq<char>|
                    active_workers(self.shadow(), pool, self.worker_identifier@).contains(
                        w,
                    ) implies #[trigger] live_count(self.shadow(), pool, w) <= live_count(
                    self.shadow(),
                    pool,
                    victim,
                ) by {
                    assert(lists_worker(lease_counts@, w));
                    let j = choose|j: int|
                        0 <= j < lease_counts.len() && (#[trigger] lease_counts[j]).worker@ == w;
                    assert(lease_counts[j].count <= lease_counts[b].count);
                }
                assert(self.steals(pool, victim, views(picked@)));
            }
            picked
        }
    }

    /// Runs the deciding part of a pass: merges the scan made at `scan_time`
    /// into the picture and returns the leases to try to take, judged at
    /// clock reading `now`.
    pub fn take_leases(&mut self, source_leases: &Vec<Lease>, scan_time: u64, now: u64) -> (picked:
        Vec<Lease>)
        requires
            old(self).wf(),
        ensures
            final(self).wf(),
            final(self).shadow() == refreshed(old(self).shadow(), views(source_leases@), scan_time),
            final(self).last_scan_time == scan_time,
            final(self).same_settings(old(self)),
            exists|rest: Seq<LeaseView>| #[trigger]
                final(self).selects(
                    expired_of(final(self).shadow(), now, final(self).failover_nanos),
                    rest,
                    views(picked@),
                ),
            distinct_keys(views(picked@)),
    {
        self.update_leases_from_source(source_leases, scan_time);
        let mut expired = self.expired_leases(now);
        let ghost pool = views(expired@);
        proof {
            lemma_expired_of(self.shadow(), now, self.failover_nanos);
        }
        let picked = self.find_leases_to_take(&mut expired);
        assert(self.selects(pool, views(expired@), views(picked@)));
        picked
    }

    /// Records that the table let this worker take the lease with key `key`
    /// at clock reading `now`, and returns the lease as it now stands. Nothing
    /// happens when the worker knows no such lease or its counter cannot
    /// advance.
    pub fn record_taken(&mut self, key: &String, now: u64) -> (taken: Option<Lease>)
        requires
            old(self).wf(),
        ensures
            final(self).wf(),
            final(self).same_settings(old(self)),
            final(self).last_scan_time == old(self).last_scan_time,
            match lookup(old(self).shadow(), key@) {
                Some(lease) => if lease.lease_counter < u64::MAX {
                    &&& taken matches Some(t)
                    &&& t@ == lease.taken_by(old(self).worker_identifier@, now)
                    &&& final(self).shadow() == upsert(old(self).shadow(), t@)
                } else {
                    taken is None && final(self).shadow() == old(self).shadow()
                },
                None => taken is None && final(self).shadow() == old(self).shadow(),
            },
    {
        let ghost before = self.shadow();
        match find_lease(&self.all_leases, key) {
            Some(i) => {
                proof {
                    lemma_position(before, key@);
                }
                if self.all_leases[i].lease_counter == u64::MAX {
                    return None;
                }
                let mut lease = self.all_leases[i].duplicate();
                lease.lease_owner = Some(self.worker_identifier.clone());
                lease.lease_counter = lease.lease_counter + 1;
                lease.last_renewal_nanos = now;
                let copy = lease.duplicate();
                proof {
                    lemma_upsert(before, lease@);
                }
                self.all_leases.set(i, lease);
                assert(self.shadow() =~= before.update(i as int, copy@));
                Some(copy)
            },
            None => None,
        }
    }

    /// Finishes a pass: records that the table let this worker take the
    /// leases with the keys `taken_keys` at clock reading `now`, and hands
    /// those leases to the renewer.
    pub fn run_once(&mut self, renewer: &mut LeaseRenewer, taken_keys: &Vec<String>, now: u64)
        requires
            old(self).wf(),
            old(renewer).wf(),
        ensures
            final(self).wf(),
            final(renewer).wf(),
            final(self).same_settings(old(self)),
            final(self).last_scan_time == old(self).last_scan_time,
            final(renewer).failover_nanos == old(renewer).failover_nanos,
            final(self).shadow() == taken_all(
                old(self).shadow(),
                names_view(taken_keys@),
                old(self).worker_identifier@,
                now,
            ).0,
            final(renewer).held() == add_all(
                old(renewer).held(),
                taken_all(
                    old(self).shadow(),
                    names_view(taken_keys@),
                    old(self).worker_identifier@,
                    now,
                ).1,
            ),
    {
        let ghost before = self.shadow();
        let ghost keys = names_view(taken_keys@);
        let ghost me = self.worker_identifier@;
        let mut taken: Vec<Lease> = Vec::new();
        let mut i: usize = 0;
        assert(views(taken@) =~= Seq::<LeaseView>::empty());
        while i < taken_keys.len()
            invariant
                i <= taken_keys.len(),
                keys == names_view(taken_keys@),
                me == self.worker_identifier@,
                self.wf(),
                self.same_settings(old(self)),
                self.last_scan_time == old(self).last_scan_time,
                self.shadow() == taken_all(before, keys.take(i as int), me, now).0,
                views(taken@) == taken_all(before, keys.take(i as int), me, now).1,
            decreases taken_keys.len() - i,
        {
            proof {
                assert(keys.take(i + 1).drop_last() =~= keys.take(i as int));
                assert(keys.take(i + 1).last() == taken_keys[i as int]@);
            }
            match self.record_taken(&taken_keys[i], now) {
                Some(lease) => {
                    let ghost earlier = views(taken@);
                    let ghost value = lease@;
                    taken.push(lease);
                    assert(views(taken@) =~= earlier.push(value));
                },
                None => {},
            }
            i += 1;
        }
        assert(keys.take(taken_keys.len() as int) =~= keys);
        renewer.add_leases(taken);
    }
}

/// What a pass selects is bounded: leases are selected only while the worker
/// holds fewer than its target, never more than it has free slots, and, when
/// they are stolen, never more than the limit of steals per pass.
pub proof fn lemma_take_bounds(
    taker: LeaseTaker,
    pool: Seq<LeaseView>,
    rest: Seq<LeaseView>,
    picked: Seq<LeaseView>,
)
    requires
        taker.selects(pool, rest, picked),
    ensures
        picked.len() > 0 ==> taker.held(pool) < taker.target(pool),
        picked.len() <= taker.available(pool),
        pool.len() == 0 ==> picked.len() <= taker.max_steals_per_run,
{
}

/// What a worker `me` knows after the table let it take the leases with the
/// keys `keys` at clock reading `now`, and the leases so taken, in order. A
/// key of which the worker knows no lease, or whose lease cannot advance its
/// counter, is passed over.
pub open spec fn taken_all(s: Seq<LeaseView>, keys: Seq<Seq<char>>, me: Seq<char>, now: u64) -> (
    Seq<LeaseView>,
    Seq<LeaseView>,
)
    decreases keys.len(),
{
    if keys.len() == 0 {
        (s, Seq::empty())
    } else {
        let before = taken_all(s, keys.drop_last(), me, now);
        match lookup(before.0, keys.last()) {
            Some(lease) => if lease.lease_counter < u64::MAX {
                (
                    upsert(before.0, lease.taken_by(me, now)),
                    before.1.push(lease.taken_by(me, now)),
                )
            } else {
                before
            },
            None => before,
        }
    }
}

} // verus!
