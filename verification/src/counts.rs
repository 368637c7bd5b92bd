//! How many live leases each worker holds, and the numbers a rebalancing
//! pass derives from that: the target per worker and how many to steal.
use vstd::prelude::*;
use crate::lease::{Lease, LeaseView};
use crate::shadow::{views, has_key, find_lease};

verus! {

/// A worker and the number of live leases it holds.
#[derive(Debug, Clone)]
pub struct WorkerCount {
    pub worker: String,
    pub count: usize,
}

/// Number of leases in `s` that `worker` owns and that are not expired.
pub open spec fn live_count(s: Seq<LeaseView>, expired: Seq<LeaseView>, worker: Seq<char>) -> nat
    decreases s.len(),
{
    if s.len() == 0 {
        0
    } else {
        let held: nat = if s.last().owned_by(worker) && !has_key(expired, s.last().lease_key) {
            1
        } else {
            0
        };
        live_count(s.drop_last(), expired, worker) + held
    }
}

/// Whether `counts` has an entry for `worker`.
pub open spec fn lists_worker(counts: Seq<WorkerCount>, worker: Seq<char>) -> bool {
    exists|k: int| 0 <= k < counts.len() && (#[trigger] counts[k]).worker@ == worker
}

/// No worker is listed twice.
pub open spec fn distinct_workers(counts: Seq<WorkerCount>) -> bool {
    forall|a: int, b: int|
        0 <= a < b < counts.len() ==> (#[trigger] counts[a]).worker@ != (#[trigger] counts[b]).worker@
}

/// `counts` is the tally of live leases in `s`: one entry for each worker that
/// holds a live lease and one for `me` whatever it holds, each with the number
/// of live leases of that worker.
pub open spec fn tallies(
    counts: Seq<WorkerCount>,
    s: Seq<LeaseView>,
    expired: Seq<LeaseView>,
    me: Seq<char>,
) -> bool {
    &&& distinct_workers(counts)
    &&& forall|k: int|
        0 <= k < counts.len() ==> (#[trigger] counts[k]).count == live_count(
            s,
            expired,
            counts[k].worker@,
        )
    &&& forall|w: Seq<char>|
        #[trigger] lists_worker(counts, w) <==> (w == me || live_count(s, expired, w) > 0)
}

/// A worker holds at most as many live leases as there are leases.
pub proof fn lemma_live_count_bound(s: Seq<LeaseView>, expired: Seq<LeaseView>, worker: Seq<char>)
    ensures
        live_count(s, expired, worker) <= s.len(),
    decreases s.len(),
{
    if s.len() > 0 {
        lemma_live_count_bound(s.drop_last(), expired, worker);
    }
}

/// Finds the entry of `worker`.
pub fn find_worker(counts: &Vec<WorkerCount>, worker: &String) -> (found: Option<usize>)
    ensures
        match found {
            Some(k) => k < counts.len() && counts[k as int].worker@ == worker@,
            None => !lists_worker(counts@, worker@),
        },
{
    let mut k: usize = 0;
    while k < counts.len()
        invariant
            k <= counts.len(),
            forall|j: int| 0 <= j < k ==> (#[trigger] counts[j]).worker@ != worker@,
        decreases counts.len() - k,
    {
        if counts[k].worker == *worker {
            return Some(k);
        }
        k += 1;
    }
    None
}

/// Tallies the live leases of `leases` by owner. Leases whose key is among
/// `expired_leases` and leases without an owner are passed over. `me` is
/// listed even when it holds nothing.
pub fn count_leases(leases: &Vec<Lease>, expired_leases: &Vec<Lease>, me: &String) -> (counts:
    Vec<WorkerCount>)
    ensures
        tallies(counts@, views(leases@), views(expired_leases@), me@),
{
    let ghost s = views(leases@);
    let ghost expired = views(expired_leases@);
    let mut counts: Vec<WorkerCount> = Vec::new();
    let mut i: usize = 0;
    while i < leases.len()
        invariant
            i <= leases.len(),
            s == views(leases@),
            expired == views(expired_leases@),
            distinct_workers(counts@),
            forall|k: int|
                0 <= k < counts.len() ==> (#[trigger] counts[k]).count == live_count(
                    s.take(i as int),
                    expired,
                    counts[k].worker@,
                ),
            forall|w: Seq<char>|
                #[trigger] lists_worker(counts@, w) <==> live_count(s.take(i as int), expired, w)
                    > 0,
        decreases leases.len() - i,
    {
        let lease = &leases[i];
        let ghost before = counts@;
        proof {
            assert(s.take(i + 1).drop_last() =~= s.take(i as int));
            assert(s.take(i + 1).last() == lease@);
        }
        let is_expired = find_lease(expired_leases, &lease.lease_key).is_some();
        if !is_expired {
            match &lease.lease_owner {
                Some(owner) => {
                    let found = find_worker(&counts, owner);
                    match found {
                        Some(k) => {
                            proof {
                                lemma_live_count_bound(s.take(i as int), expired, owner@);
                            }
                            let bumped = WorkerCount {
                                worker: owner.clone(),
                                count: counts[k].count + 1,
                            };
                            counts.set(k, bumped);
                            proof {
                                assert forall|w: Seq<char>| #[trigger]
                                    lists_worker(counts@, w) <==> live_count(
                                        s.take(i + 1),
                                        expired,
                                        w,
                                    ) > 0 by {
                                    if lists_worker(counts@, w) {
                                        let j = choose|j: int|
                                            0 <= j < counts.len() && (#[trigger] counts[j]).worker@
                                                == w;
                                        assert(before[j].worker@ == w);
                                        assert(lists_worker(before, w));
                                    }
                                    if live_count(s.take(i + 1), expired, w) > 0 {
                                        if w == owner@ {
                                            assert(counts[k as int].worker@ == w);
                                        } else {
                                            assert(lists_worker(before, w));
                                            let j = choose|j: int|
                                                0 <= j < before.len() && (
                                                #[trigger] before[j]).worker@ == w;
                                            assert(counts[j].worker@ == w);
                                        }
                                    }
                                }
                                assert forall|a: int, b: int|
                                    0 <= a < b < counts.len() implies (
                                #[trigger] counts[a]).worker@ != (#[trigger] counts[b]).worker@ by {
                                    assert(before[a].worker@ != before[b].worker@);
                                }
                                assert forall|j: int| 0 <= j < counts.len() implies (
                                #[trigger] counts[j]).count == live_count(
                                    s.take(i + 1),
                                    expired,
                                    counts[j].worker@,
                                ) by {
                                    if j != k {
                                        assert(before[j].worker@ != before[k as int].worker@);
                                    }
                                }
                            }
                        },
                        None => {
                            let first = WorkerCount { worker: owner.clone(), count: 1 };
                            counts.push(first);
                            proof {
                                assert(!lists_worker(before, owner@));
                                assert forall|w: Seq<char>| #[trigger]
                                    lists_worker(counts@, w) <==> live_count(
                                        s.take(i + 1),
                                        expired,
                                        w,
                                    ) > 0 by {
                                    if lists_worker(counts@, w) {
                                        let j = choose|j: int|
                                            0 <= j < counts.len() && (#[trigger] counts[j]).worker@
                                                == w;
                                        if j < before.len() {
                                            assert(before[j].worker@ == w);
                                            assert(lists_worker(before, w));
                                        }
                                    }
                                    if live_count(s.take(i + 1), expired, w) > 0 {
                                        if w == owner@ {
                                            assert(counts[before.len() as int].worker@ == w);
                                        } else {
                                            assert(lists_worker(before, w));
                                            let j = choose|j: int|
                                                0 <= j < before.len() && (
                                                #[trigger] before[j]).worker@ == w;
                                            assert(counts[j].worker@ == w);
                                        }
                                    }
                                }
                                assert forall|a: int, b: int|
                                    0 <= a < b < counts.len() implies (
                                #[trigger] counts[a]).worker@ != (#[trigger] counts[b]).worker@ by {
                                    if b < before.len() {
                                        assert(before[a].worker@ != before[b].worker@);
                                    } else {
                                        assert(before[a].worker@ != owner@);
                                    }
                                }
                                assert forall|j: int| 0 <= j < counts.len() implies (
                                #[trigger] counts[j]).count == live_count(
                                    s.take(i + 1),
                                    expired,
                                    counts[j].worker@,
                                ) by {
                                    if j < before.len() {
                                        assert(before[j].worker@ != owner@);
                                    } else {
                                        assert(!lists_worker(before, owner@));
                                    }
                                }
                            }
                        },
                    }
                },
                None => {},
            }
        }
        i += 1;
    }
    assert(s.take(leases.len() as int) =~= s);
    let ghost tallied = counts@;
    let mine = find_worker(&counts, me);
    if mine.is_none() {
        counts.push(WorkerCount { worker: me.clone(), count: 0 });
        proof {
            assert(live_count(s, expired, me@) == 0);
            assert forall|a: int, b: int| 0 <= a < b < counts.len() implies (
            #[trigger] counts[a]).worker@ != (#[trigger] counts[b]).worker@ by {
                if b < tallied.len() {
                    assert(tallied[a].worker@ != tallied[b].worker@);
                } else {
                    assert(tallied[a].worker@ != me@);
                }
            }
            assert forall|w: Seq<char>| #[trigger]
                lists_worker(counts@, w) <==> (w == me@ || live_count(s, expired, w) > 0) by {
                if lists_worker(counts@, w) {
                    let j = choose|j: int|
                        0 <= j < counts.len() && (#[trigger] counts[j]).worker@ == w;
                    if j < tallied.len() {
                        assert(tallied[j].worker@ == w);
                        assert(lists_worker(tallied, w));
                    }
                }
                if w == me@ {
                    assert(counts[tallied.len() as int].worker@ == w);
                } else if live_count(s, expired, w) > 0 {
                    assert(lists_worker(tallied, w));
                    let j = choose|j: int|
                        0 <= j < tallied.len() && (#[trigger] tallied[j]).worker@ == w;
                    assert(counts[j].worker@ == w);
                }
            }
            assert forall|j: int| 0 <= j < counts.len() implies (#[trigger] counts[j]).count
                == live_count(s, expired, counts[j].worker@) by {
                if j < tallied.len() {
                    assert(tallied[j].count == live_count(s, expired, tallied[j].worker@));
                }
            }
        }
    } else {
        proof {
            let k = mine.unwrap() as int;
            assert forall|w: Seq<char>| #[trigger]
                lists_worker(counts@, w) <==> (w == me@ || live_count(s, expired, w) > 0) by {
                if w == me@ {
                    assert(counts[k].worker@ == w);
                }
            }
        }
    }
    counts
}

/// The workers that count towards the target: `me`, and every worker that
/// holds a live lease.
pub open spec fn active_workers(s: Seq<LeaseView>, expired: Seq<LeaseView>, me: Seq<char>) -> Set<
    Seq<char>,
> {
    Set::new(|w: Seq<char>| w == me || live_count(s, expired, w) > 0)
}

/// The workers listed in `counts`.
pub open spec fn listed_workers(counts: Seq<WorkerCount>) -> Set<Seq<char>> {
    Set::new(|w: Seq<char>| lists_worker(counts, w))
}

/// A list without repeated workers lists as many workers as it is long.
pub proof fn lemma_listed_workers(counts: Seq<WorkerCount>)
    requires
        distinct_workers(counts),
    ensures
        listed_workers(counts).finite(),
        listed_workers(counts).len() == counts.len(),
    decreases counts.len(),
{
    if counts.len() == 0 {
        assert(listed_workers(counts) =~= Set::<Seq<char>>::empty());
    } else {
        let front = counts.drop_last();
        let last = counts.last().worker@;
        assert(distinct_workers(front)) by {
            assert forall|a: int, b: int| 0 <= a < b < front.len() implies (
            #[trigger] front[a]).worker@ != (#[trigger] front[b]).worker@ by {
                assert(counts[a].worker@ != counts[b].worker@);
            }
        }
        lemma_listed_workers(front);
        assert(!lists_worker(front, last)) by {
            if lists_worker(front, last) {
                let j = choose|j: int| 0 <= j < front.len() && (#[trigger] front[j]).worker@ == last;
                assert(counts[j].worker@ != counts[counts.len() - 1].worker@);
            }
        }
        assert(listed_workers(counts) =~= listed_workers(front).insert(last)) by {
            assert forall|w: Seq<char>| listed_workers(counts).contains(w) implies listed_workers(
                front,
            ).insert(last).contains(w) by {
                let j = choose|j: int| 0 <= j < counts.len() && (#[trigger] counts[j]).worker@ == w;
                if j < front.len() {
                    assert(front[j].worker@ == w);
                }
            }
            assert forall|w: Seq<char>| listed_workers(front).insert(last).contains(
                w,
            ) implies listed_workers(counts).contains(w) by {
                if w == last {
                    assert(counts[counts.len() - 1].worker@ == w);
                } else {
                    let j = choose|j: int|
                        0 <= j < front.len() && (#[trigger] front[j]).worker@ == w;
                    assert(counts[j].worker@ == w);
                }
            }
        }
    }
}

/// A tally has one entry per active worker.
pub proof fn lemma_tally_len(
    counts: Seq<WorkerCount>,
    s: Seq<LeaseView>,
    expired: Seq<LeaseView>,
    me: Seq<char>,
)
    requires
        tallies(counts, s, expired, me),
    ensures
        active_workers(s, expired, me).finite(),
        active_workers(s, expired, me).len() == counts.len(),
        counts.len() >= 1,
{
    lemma_listed_workers(counts);
    assert(listed_workers(counts) =~= active_workers(s, expired, me));
    assert(lists_worker(counts, me));
}

/// The number of leases each worker should hold when `total` leases are
/// shared among `workers` workers: one when there are at least as many workers
/// as leases, else the quotient rounded up, and never more than `max_allowed`.
pub open spec fn target_count(total: nat, workers: nat, max_allowed: nat) -> nat {
    if workers >= total {
        1
    } else {
        let share = total / workers + if total % workers > 0 {
            1nat
        } else {
            0nat
        };
        if share > max_allowed {
            max_allowed
        } else {
            share
        }
    }
}

/// Computes [`target_count`].
pub fn compute_target(total: usize, workers: usize, max_allowed: usize) -> (target: usize)
    requires
        workers > 0,
    ensures
        target == target_count(total as nat, workers as nat, max_allowed as nat),
{
    if workers >= total {
        1
    } else {
        let remainder = total % workers;
        let mut share = total / workers;
        if remainder > 0 {
            assert(total / workers < total) by (nonlinear_arith)
                requires
                    workers > 0,
                    total % workers > 0,
                    total > 0,
            ;
            share += 1;
        }
        if share > max_allowed {
            max_allowed
        } else {
            share
        }
    }
}

/// Free slots of a worker that holds `held` leases and should hold `target`.
pub open spec fn available_slots(target: nat, held: nat) -> nat {
    if target > held {
        (target - held) as nat
    } else {
        0
    }
}

/// How many leases to steal from a peer that holds `busiest` leases, for a
/// worker that needs `needed` more to reach `target`.
///
/// Nothing is stolen from a peer below the target. Otherwise the peer's
/// surplus over the target is stolen, up to what is needed; a worker that
/// needs two or more steals one even from a peer with no surplus. In every
/// case at most `max_steals` are stolen.
pub open spec fn steal_count(busiest: nat, target: nat, needed: nat, max_steals: nat) -> nat {
    if busiest >= target && needed > 0 {
        let surplus = (busiest - target) as nat;
        let wanted = if surplus > needed {
            needed
        } else {
            surplus
        };
        let planned = if needed > 1 && wanted == 0 {
            1nat
        } else {
            wanted
        };
        if max_steals < planned {
            max_steals
        } else {
            planned
        }
    } else {
        0
    }
}

/// Computes [`steal_count`].
pub fn compute_steal_count(busiest: usize, target: usize, needed: usize, max_steals: usize) -> (n:
    usize)
    ensures
        n == steal_count(busiest as nat, target as nat, needed as nat, max_steals as nat),
{
    if busiest >= target && needed > 0 {
        let surplus = busiest - target;
        let wanted = if surplus > needed {
            needed
        } else {
            surplus
        };
        let planned = if needed > 1 && wanted == 0 {
            1
        } else {
            wanted
        };
        if max_steals < planned {
            max_steals
        } else {
            planned
        }
    } else {
        0
    }
}

/// Index of the entry with the highest count; of several, the last.
pub open spec fn busiest_index(counts: Seq<WorkerCount>) -> int
    decreases counts.len(),
{
    if counts.len() <= 1 {
        0
    } else {
        let best = busiest_index(counts.drop_last());
        if counts.last().count >= counts[best].count {
            counts.len() - 1
        } else {
            best
        }
    }
}

/// The busiest entry holds at least as much as every entry and more than
/// every later one.
pub proof fn lemma_busiest_index(counts: Seq<WorkerCount>)
    requires
        counts.len() > 0,
    ensures
        0 <= busiest_index(counts) < counts.len(),
        forall|j: int|
            0 <= j < counts.len() ==> (#[trigger] counts[j]).count <= counts[busiest_index(
                counts,
            )].count,
        forall|j: int|
            busiest_index(counts) < j < counts.len() ==> (#[trigger] counts[j]).count
                < counts[busiest_index(counts)].count,
    decreases counts.len(),
{
    if counts.len() > 1 {
        let front = counts.drop_last();
        lemma_busiest_index(front);
        let best = busiest_index(front);
        assert forall|j: int| 0 <= j < counts.len() implies (#[trigger] counts[j]).count
            <= counts[busiest_index(counts)].count by {
            if j < front.len() {
                assert(front[j].count <= front[best].count);
            }
        }
        assert forall|j: int| busiest_index(counts) < j < counts.len() implies (
        #[trigger] counts[j]).count < counts[busiest_index(counts)].count by {
            if j < front.len() {
                assert(front[j].count < front[best].count);
            }
        }
    }
}

/// Finds the entry with the highest count; of several, the last.
pub fn busiest_worker(counts: &Vec<WorkerCount>) -> (best: usize)
    requires
        counts.len() > 0,
    ensures
        best == busiest_index(counts@),
        best < counts.len(),
{
    let mut best: usize = 0;
    let mut k: usize = 1;
    assert(counts@.take(1).len() == 1);
    while k < counts.len()
        invariant
            1 <= k <= counts.len(),
            best < k,
            best == busiest_index(counts@.take(k as int)),
        decreases counts.len() - k,
    {
        proof {
            assert(counts@.take(k + 1).drop_last() =~= counts@.take(k as int));
            assert(counts@.take(k + 1).last() == counts[k as int]);
            assert(counts@.take(k + 1)[best as int] == counts[best as int]);
        }
        if counts[k].count >= counts[best].count {
            best = k;
        }
        k += 1;
    }
    assert(counts@.take(counts.len() as int) =~= counts@);
    best
}

} // verus!
