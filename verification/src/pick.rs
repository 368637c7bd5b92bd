//! Choosing leases: filtering a list by owner or by expiry, shuffling, and
//! drawing a bounded number from a shuffled list.
use vstd::prelude::*;
use vstd::multiset::*;
use vstd::seq_lib::*;
use rand::seq::SliceRandom;
use crate::lease::{Lease, LeaseView, owner_is};
use crate::shadow::{views, distinct_keys};

verus! {

/// The entries of `s` that are expired at `now`, in order.
pub open spec fn expired_of(s: Seq<LeaseView>, now: u64, failover_nanos: u64) -> Seq<LeaseView>
    decreases s.len(),
{
    if s.len() == 0 {
        s
    } else {
        let rest = expired_of(s.drop_last(), now, failover_nanos);
        if s.last().is_expired(now, failover_nanos) {
            rest.push(s.last())
        } else {
            rest
        }
    }
}

/// The entries of `s` that `worker` owns, in order.
pub open spec fn owned_of(s: Seq<LeaseView>, worker: Seq<char>) -> Seq<LeaseView>
    decreases s.len(),
{
    if s.len() == 0 {
        s
    } else {
        let rest = owned_of(s.drop_last(), worker);
        if s.last().owned_by(worker) {
            rest.push(s.last())
        } else {
            rest
        }
    }
}

/// The expired entries are entries, each once where each key occurs once.
pub proof fn lemma_expired_of(s: Seq<LeaseView>, now: u64, failover_nanos: u64)
    ensures
        forall|k: int|
            0 <= k < expired_of(s, now, failover_nanos).len() ==> s.contains(
                #[trigger] expired_of(s, now, failover_nanos)[k],
            ) && expired_of(s, now, failover_nanos)[k].is_expired(now, failover_nanos),
        distinct_keys(s) ==> distinct_keys(expired_of(s, now, failover_nanos)),
    decreases s.len(),
{
    if s.len() > 0 {
        let front = s.drop_last();
        let rest = expired_of(front, now, failover_nanos);
        let out = expired_of(s, now, failover_nanos);
        lemma_expired_of(front, now, failover_nanos);
        assert forall|k: int| 0 <= k < out.len() implies s.contains(#[trigger] out[k])
            && out[k].is_expired(now, failover_nanos) by {
            if k < rest.len() {
                let i = choose|i: int| 0 <= i < front.len() && front[i] == rest[k];
                assert(s[i] == out[k]);
            } else {
                assert(s[s.len() - 1] == out[k]);
            }
        }
        if distinct_keys(s) {
            assert(distinct_keys(front)) by {
                assert forall|i: int, j: int| 0 <= i < j < front.len() implies (
                #[trigger] front[i]).lease_key != (#[trigger] front[j]).lease_key by {
                    assert(s[i].lease_key != s[j].lease_key);
                }
            }
            assert forall|a: int, b: int| 0 <= a < b < out.len() implies (
            #[trigger] out[a]).lease_key != (#[trigger] out[b]).lease_key by {
                if b == rest.len() {
                    let i = choose|i: int| 0 <= i < front.len() && front[i] == rest[a];
                    assert(s[i].lease_key != s[s.len() - 1].lease_key);
                }
            }
        }
    }
}

/// The entries a worker owns are entries, each once where each key occurs
/// once.
pub proof fn lemma_owned_of(s: Seq<LeaseView>, worker: Seq<char>)
    ensures
        forall|k: int|
            0 <= k < owned_of(s, worker).len() ==> s.contains(#[trigger] owned_of(s, worker)[k])
                && owned_of(s, worker)[k].owned_by(worker),
        distinct_keys(s) ==> distinct_keys(owned_of(s, worker)),
    decreases s.len(),
{
    if s.len() > 0 {
        let front = s.drop_last();
        let rest = owned_of(front, worker);
        let out = owned_of(s, worker);
        lemma_owned_of(front, worker);
        assert forall|k: int| 0 <= k < out.len() implies s.contains(#[trigger] out[k])
            && out[k].owned_by(worker) by {
            if k < rest.len() {
                let i = choose|i: int| 0 <= i < front.len() && front[i] == rest[k];
                assert(s[i] == out[k]);
            } else {
                assert(s[s.len() - 1] == out[k]);
            }
        }
        if distinct_keys(s) {
            assert(distinct_keys(front)) by {
                assert forall|i: int, j: int| 0 <= i < j < front.len() implies (
                #[trigger] front[i]).lease_key != (#[trigger] front[j]).lease_key by {
                    assert(s[i].lease_key != s[j].lease_key);
                }
            }
            assert forall|a: int, b: int| 0 <= a < b < out.len() implies (
            #[trigger] out[a]).lease_key != (#[trigger] out[b]).lease_key by {
                if b == rest.len() {
                    let i = choose|i: int| 0 <= i < front.len() && front[i] == rest[a];
                    assert(s[i].lease_key != s[s.len() - 1].lease_key);
                }
            }
        }
    }
}

/// The smaller of two numbers.
pub open spec fn at_most(limit: nat, len: nat) -> nat {
    if limit < len {
        limit
    } else {
        len
    }
}

/// `picked` holds `limit` leases of `pool`, or all of them when the pool has
/// fewer, and `rest` holds the others.
pub open spec fn splits(
    pool: Seq<LeaseView>,
    rest: Seq<LeaseView>,
    picked: Seq<LeaseView>,
    limit: nat,
) -> bool {
    &&& picked.len() == at_most(limit, pool.len())
    &&& (rest + picked).to_multiset() == pool.to_multiset()
}

/// `picked` holds `limit` leases of `pool`, each at most as often as the pool
/// holds it, or as many as the pool has when it has fewer.
pub open spec fn drawn_from(pool: Seq<LeaseView>, picked: Seq<LeaseView>, limit: nat) -> bool {
    &&& picked.len() == at_most(limit, pool.len())
    &&& picked.to_multiset().subset_of(pool.to_multiset())
}

/// What is split off a pool is drawn from it.
pub proof fn lemma_splits_drawn(
    pool: Seq<LeaseView>,
    rest: Seq<LeaseView>,
    picked: Seq<LeaseView>,
    limit: nat,
)
    requires
        splits(pool, rest, picked, limit),
    ensures
        drawn_from(pool, picked, limit),
{
    broadcast use group_multiset_axioms;

    lemma_multiset_commutative(rest, picked);
}

/// Leases drawn from a pool with one lease per key have one lease per key,
/// and each of them is in the pool.
pub proof fn lemma_drawn_distinct(pool: Seq<LeaseView>, picked: Seq<LeaseView>, limit: nat)
    requires
        drawn_from(pool, picked, limit),
        distinct_keys(pool),
    ensures
        distinct_keys(picked),
        forall|k: int| 0 <= k < picked.len() ==> pool.contains(#[trigger] picked[k]),
{
    broadcast use group_multiset_axioms;

    assert forall|k: int| 0 <= k < picked.len() implies pool.contains(#[trigger] picked[k]) by {
        assert(picked.contains(picked[k]));
        to_multiset_contains(picked, picked[k]);
        to_multiset_contains(pool, picked[k]);
    }
    assert(pool.no_duplicates()) by {
        assert forall|i: int, j: int| 0 <= i < pool.len() && 0 <= j < pool.len() && i != j implies pool[i]
            != pool[j] by {
            if i < j {
                assert(pool[i].lease_key != pool[j].lease_key);
            } else {
                assert(pool[j].lease_key != pool[i].lease_key);
            }
        }
    }
    pool.lemma_multiset_has_no_duplicates();
    assert(picked.no_duplicates()) by {
        assert forall|x: LeaseView| picked.to_multiset().contains(x) implies picked.to_multiset().count(
            x,
        ) == 1 by {
            assert(picked.to_multiset().count(x) <= pool.to_multiset().count(x));
            if pool.to_multiset().count(x) > 0 {
                assert(pool.to_multiset().contains(x));
            }
        }
        picked.lemma_multiset_has_no_duplicates_conv();
    }
    assert forall|a: int, b: int| 0 <= a < b < picked.len() implies (#[trigger] picked[a]).lease_key
        != (#[trigger] picked[b]).lease_key by {
        assert(pool.contains(picked[a]));
        assert(pool.contains(picked[b]));
        let i = choose|i: int| 0 <= i < pool.len() && pool[i] == picked[a];
        let j = choose|j: int| 0 <= j < pool.len() && pool[j] == picked[b];
        assert(picked[a] != picked[b]);
        if i < j {
            assert(pool[i].lease_key != pool[j].lease_key);
        } else if j < i {
            assert(pool[j].lease_key != pool[i].lease_key);
        }
    }
}

/// Puts the leases in a random order.
///
/// Calls `rand::seq::SliceRandom::shuffle` on the vector's slice with the
/// generator of `rand::thread_rng`. The shuffle only swaps elements of the
/// slice, so the vector afterwards holds the same leases, each as often as
/// before. Nothing is claimed about the order.
#[verifier::external_body]
fn shuffle_leases(leases: &mut Vec<Lease>)
    ensures
        views(final(leases)@).to_multiset() == views(old(leases)@).to_multiset(),
{
    leases.shuffle(&mut rand::thread_rng());
}

/// Removes up to `limit` leases from the end of `leases`, last first.
pub fn pop_up_to(leases: &mut Vec<Lease>, limit: usize) -> (picked: Vec<Lease>)
    ensures
        picked.len() == at_most(limit as nat, old(leases).len() as nat),
        final(leases)@ == old(leases)@.take(old(leases).len() - picked.len()),
        forall|j: int|
            0 <= j < picked.len() ==> #[trigger] picked[j] == old(leases)[old(leases).len() - 1
                - j],
        splits(views(old(leases)@), views(final(leases)@), views(picked@), limit as nat),
{
    broadcast use group_multiset_axioms;

    let ghost pool = leases@;
    let mut picked: Vec<Lease> = Vec::new();
    assert(views(leases@) + views(picked@) =~= views(pool));
    while picked.len() < limit && leases.len() > 0
        invariant
            picked.len() <= limit,
            picked.len() + leases.len() == pool.len(),
            leases@ == pool.take(pool.len() - picked.len()),
            forall|j: int| 0 <= j < picked.len() ==> #[trigger] picked[j] == pool[pool.len() - 1 - j],
            (views(leases@) + views(picked@)).to_multiset() == views(pool).to_multiset(),
        decreases leases.len(),
    {
        let ghost before = views(leases@);
        let ghost chosen = views(picked@);
        match leases.pop() {
            Some(lease) => {
                picked.push(lease);
                proof {
                    let after = views(leases@);
                    assert(before =~= after.push(lease@));
                    assert(views(picked@) =~= chosen.push(lease@));
                    to_multiset_build(after, lease@);
                    to_multiset_build(chosen, lease@);
                    lemma_multiset_commutative(before, chosen);
                    lemma_multiset_commutative(after, chosen.push(lease@));
                    assert(after.to_multiset().add(chosen.push(lease@).to_multiset())
                        =~= before.to_multiset().add(chosen.to_multiset()));
                }
            },
            None => {},
        }
    }
    picked
}

/// Copies the first `limit` leases of `leases`, or all when there are fewer.
pub fn first_up_to(leases: &Vec<Lease>, limit: usize) -> (picked: Vec<Lease>)
    ensures
        views(picked@) == views(leases@).take(at_most(limit as nat, leases.len() as nat) as int),
        drawn_from(views(leases@), views(picked@), limit as nat),
{
    broadcast use group_multiset_axioms;

    let mut picked: Vec<Lease> = Vec::new();
    while picked.len() < limit && picked.len() < leases.len()
        invariant
            picked.len() <= limit,
            picked.len() <= leases.len(),
            views(picked@) == views(leases@).take(picked.len() as int),
        decreases leases.len() - picked.len(),
    {
        let ghost chosen = views(picked@);
        let idx = picked.len();
        let copy = leases[idx].duplicate();
        picked.push(copy);
        assert(views(picked@) =~= chosen.push(copy@));
        assert(views(picked@) =~= views(leases@).take(picked.len() as int));
    }
    proof {
        let all = views(leases@);
        let k = picked.len() as int;
        assert(all.take(k) + all.skip(k) =~= all);
        lemma_multiset_commutative(all.take(k), all.skip(k));
    }
    picked
}

/// Copies the leases that are expired at `now`.
pub fn expired_among(leases: &Vec<Lease>, now: u64, failover_nanos: u64) -> (expired: Vec<Lease>)
    ensures
        views(expired@) == expired_of(views(leases@), now, failover_nanos),
{
    let ghost s = views(leases@);
    let mut expired: Vec<Lease> = Vec::new();
    let mut i: usize = 0;
    while i < leases.len()
        invariant
            i <= leases.len(),
            s == views(leases@),
            views(expired@) == expired_of(s.take(i as int), now, failover_nanos),
        decreases leases.len() - i,
    {
        proof {
            assert(s.take(i + 1).drop_last() =~= s.take(i as int));
            assert(s.take(i + 1).last() == leases[i as int]@);
        }
        if leases[i].is_expired(now, failover_nanos) {
            let ghost chosen = views(expired@);
            let copy = leases[i].duplicate();
            expired.push(copy);
            assert(views(expired@) =~= chosen.push(copy@));
        }
        i += 1;
    }
    assert(s.take(leases.len() as int) =~= s);
    expired
}

/// Copies the leases that `worker` owns.
pub fn owned_among(leases: &Vec<Lease>, worker: &String) -> (owned: Vec<Lease>)
    ensures
        views(owned@) == owned_of(views(leases@), worker@),
{
    let ghost s = views(leases@);
    let mut owned: Vec<Lease> = Vec::new();
    let mut i: usize = 0;
    while i < leases.len()
        invariant
            i <= leases.len(),
            s == views(leases@),
            views(owned@) == owned_of(s.take(i as int), worker@),
        decreases leases.len() - i,
    {
        proof {
            assert(s.take(i + 1).drop_last() =~= s.take(i as int));
            assert(s.take(i + 1).last() == leases[i as int]@);
        }
        if owner_is(&leases[i].lease_owner, worker) {
            let ghost chosen = views(owned@);
            let copy = leases[i].duplicate();
            owned.push(copy);
            assert(views(owned@) =~= chosen.push(copy@));
        }
        i += 1;
    }
    assert(s.take(leases.len() as int) =~= s);
    owned
}

/// Shuffles `leases` and removes up to `limit` of them from the end.
pub fn draw_shuffled(leases: &mut Vec<Lease>, limit: usize) -> (picked: Vec<Lease>)
    ensures
        splits(views(old(leases)@), views(final(leases)@), views(picked@), limit as nat),
{
    broadcast use to_multiset_len;

    shuffle_leases(leases);
    assert(views(leases@).len() == views(old(leases)@).len()) by {
        assert(views(leases@).to_multiset().len() == views(old(leases)@).to_multiset().len());
    }
    pop_up_to(leases, limit)
}

/// Shuffles a copy of `leases` and copies up to `limit` of them from its
/// front.
pub fn sample_shuffled(leases: Vec<Lease>, limit: usize) -> (picked: Vec<Lease>)
    ensures
        drawn_from(views(leases@), views(picked@), limit as nat),
{
    broadcast use to_multiset_len;

    let mut pool = leases;
    shuffle_leases(&mut pool);
    assert(views(pool@).len() == views(leases@).len()) by {
        assert(views(pool@).to_multiset().len() == views(leases@).to_multiset().len());
    }
    first_up_to(&pool, limit)
}

} // verus!
