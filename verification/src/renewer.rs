//! The lease renewer: the leases a worker holds, and what a renewal pass
//! keeps of them.
use vstd::prelude::*;
use crate::broker::{LeaseWrite, renew_request, renew_write};
use crate::lease::{Lease, LeaseView, ShardInfo, contains_name, names_view};
use crate::shadow::{distinct_keys, has_distinct_keys, lemma_upsert, upsert, upsert_lease, views};

verus! {

/// The leases a worker holds and keeps renewing.
pub struct LeaseRenewer {
    pub leases: Vec<Lease>,
    pub failover_nanos: u64,
}

/// Adds the leases of `added` to `s` one after another, each in place of any
/// entry with its key.
pub open spec fn add_all(s: Seq<LeaseView>, added: Seq<LeaseView>) -> Seq<LeaseView>
    decreases added.len(),
{
    if added.len() == 0 {
        s
    } else {
        upsert(add_all(s, added.drop_last()), added.last())
    }
}

/// Whether a renewal pass at clock reading `now` tries to renew `lease`: the
/// lease is not expired and its counter can still advance.
pub open spec fn renewable(lease: LeaseView, now: u64, failover_nanos: u64) -> bool {
    !lease.is_expired(now, failover_nanos) && lease.lease_counter < u64::MAX
}

/// The renewal writes a pass at clock reading `now` issues for `s`, in order.
pub open spec fn renewal_writes(s: Seq<LeaseView>, now: u64, failover_nanos: u64) -> Seq<
    crate::broker::LeaseWriteView,
>
    decreases s.len(),
{
    if s.len() == 0 {
        Seq::empty()
    } else {
        let rest = renewal_writes(s.drop_last(), now, failover_nanos);
        if renewable(s.last(), now, failover_nanos) {
            rest.push(renew_write(s.last()))
        } else {
            rest
        }
    }
}

/// What a pass keeps of `s` when the renewals of the keys in `renewed` went
/// through at clock reading `now`: those leases, renewed, in order. Every
/// other lease is dropped.
pub open spec fn kept_after(s: Seq<LeaseView>, renewed: Seq<Seq<char>>, now: u64) -> Seq<
    LeaseView,
>
    decreases s.len(),
{
    if s.len() == 0 {
        s
    } else {
        let rest = kept_after(s.drop_last(), renewed, now);
        if renewed.contains(s.last().lease_key) && s.last().lease_counter < u64::MAX {
            rest.push(s.last().renewed(now))
        } else {
            rest
        }
    }
}

/// A pass keeps one lease per key, and each kept lease stems from a lease
/// held before.
pub proof fn lemma_kept_after(s: Seq<LeaseView>, renewed: Seq<Seq<char>>, now: u64)
    ensures
        kept_after(s, renewed, now).len() <= s.len(),
        forall|k: int|
            0 <= k < kept_after(s, renewed, now).len() ==> exists|i: int|
                0 <= i < s.len() && renewed.contains(s[i].lease_key) && s[i].renewed(now)
                    == #[trigger] kept_after(s, renewed, now)[k],
        distinct_keys(s) ==> distinct_keys(kept_after(s, renewed, now)),
    decreases s.len(),
{
    if s.len() > 0 {
        let front = s.drop_last();
        let rest = kept_after(front, renewed, now);
        let out = kept_after(s, renewed, now);
        lemma_kept_after(front, renewed, now);
        assert forall|k: int| 0 <= k < out.len() implies exists|i: int|
            0 <= i < s.len() && renewed.contains(s[i].lease_key) && s[i].renewed(now)
                == #[trigger] out[k] by {
            if k < rest.len() {
                let i = choose|i: int|
                    0 <= i < front.len() && renewed.contains(front[i].lease_key) && front[i].renewed(
                        now,
                    ) == rest[k];
                assert(s[i] == front[i]);
            } else {
                assert(s[s.len() - 1].renewed(now) == out[k]);
            }
        }
        if distinct_keys(s) {
            assert(distinct_keys(front)) by {
                assert forall|i: int, j: int| 0 <= i < j < front.len() implies (
                #[trigger] front[i]).lease_key != (#[trigger] front[j]).lease_key by {
                    assert(s[i].lease_key != s[j].lease_key);
                }
            }
            assert forall|a: int, b: int| 0 <= a < b < out.len() implies (
            #[trigger] out[a]).lease_key != (#[trigger] out[b]).lease_key by {
                if b == rest.len() {
                    let i = choose|i: int|
                        0 <= i < front.len() && renewed.contains(front[i].lease_key)
                            && front[i].renewed(now) == rest[a];
                    assert(s[i].lease_key != s[s.len() - 1].lease_key);
                }
            }
        }
    }
}

impl LeaseRenewer {
    /// One lease is held per key.
    pub open spec fn wf(&self) -> bool {
        distinct_keys(views(self.leases@))
    }

    /// The leases held.
    pub open spec fn held(&self) -> Seq<LeaseView> {
        views(self.leases@)
    }

    /// Whether one lease is held per key.
    pub fn is_wf(&self) -> (ok: bool)
        ensures
            ok == self.wf(),
    {
        has_distinct_keys(&self.leases)
    }

    /// A renewer that holds nothing.
    pub fn new(failover_nanos: u64) -> (renewer: LeaseRenewer)
        ensures
            renewer.wf(),
            renewer.held() == Seq::<LeaseView>::empty(),
            renewer.failover_nanos == failover_nanos,
    {
        let renewer = LeaseRenewer { leases: Vec::new(), failover_nanos };
        assert(renewer.held() =~= Seq::<LeaseView>::empty());
        renewer
    }

    /// Takes newly acquired leases into the set to renew.
    pub fn add_leases(&mut self, leases: Vec<Lease>)
        requires
            old(self).wf(),
        ensures
            final(self).wf(),
            final(self).held() == add_all(old(self).held(), views(leases@)),
            final(self).failover_nanos == old(self).failover_nanos,
    {
        let ghost before = self.held();
        let ghost added = views(leases@);
        let mut i: usize = 0;
        while i < leases.len()
            invariant
                i <= leases.len(),
                added == views(leases@),
                self.failover_nanos == old(self).failover_nanos,
                self.held() == add_all(before, added.take(i as int)),
                distinct_keys(self.held()),
            decreases leases.len() - i,
        {
            let copy = leases[i].duplicate();
            proof {
                assert(added.take(i + 1).drop_last() =~= added.take(i as int));
                assert(added.take(i + 1).last() == copy@);
                lemma_upsert(self.held(), copy@);
            }
            upsert_lease(&mut self.leases, copy);
            i += 1;
        }
        assert(added.take(leases.len() as int) =~= added);
    }

    /// Decides whether to renew `lease` at clock reading `now` and, if so,
    /// with which write. An expired lease is not renewed.
    pub fn renew_lease(&self, lease: &Lease, now: u64) -> (request: Option<LeaseWrite>)
        ensures
            renewable(lease@, now, self.failover_nanos) ==> (request matches Some(write) && write@
                == renew_write(lease@)),
            !renewable(lease@, now, self.failover_nanos) ==> request is None,
    {
        if lease.is_expired(now, self.failover_nanos) {
            None
        } else {
            renew_request(lease)
        }
    }

    /// The writes that a renewal pass at clock reading `now` issues.
    pub fn renewals(&self, now: u64) -> (writes: Vec<LeaseWrite>)
        ensures
            writes@.map_values(|w: LeaseWrite| w@) == renewal_writes(
                self.held(),
                now,
                self.failover_nanos,
            ),
    {
        let ghost s = self.held();
        let mut writes: Vec<LeaseWrite> = Vec::new();
        let mut i: usize = 0;
        while i < self.leases.len()
            invariant
                i <= self.leases.len(),
                s == self.held(),
                writes@.map_values(|w: LeaseWrite| w@) == renewal_writes(
                    s.take(i as int),
                    now,
                    self.failover_nanos,
                ),
            decreases self.leases.len() - i,
        {
            proof {
                assert(s.take(i + 1).drop_last() =~= s.take(i as int));
                assert(s.take(i + 1).last() == self.leases[i as int]@);
            }
            match self.renew_lease(&self.leases[i], now) {
                Some(write) => {
                    let ghost before = writes@.map_values(|w: LeaseWrite| w@);
                    let ghost value = write@;
                    writes.push(write);
                    assert(writes@.map_values(|w: LeaseWrite| w@) =~= before.push(value));
                },
                None => {},
            }
            i += 1;
        }
        assert(s.take(self.leases.len() as int) =~= s);
        writes
    }

    /// Finishes a renewal pass made at clock reading `now`: the leases whose
    /// keys are in `renewed` stay, renewed, and every other lease is dropped.
    pub fn run_once(&mut self, renewed: &Vec<String>, now: u64)
        requires
            old(self).wf(),
        ensures
            final(self).wf(),
            final(self).held() == kept_after(old(self).held(), names_view(renewed@), now),
            final(self).failover_nanos == old(self).failover_nanos,
    {
        let ghost s = self.held();
        let ghost keys = names_view(renewed@);
        let mut kept: Vec<Lease> = Vec::new();
        let mut i: usize = 0;
        while i < self.leases.len()
            invariant
                i <= self.leases.len(),
                s == self.held(),
                keys == names_view(renewed@),
                views(kept@) == kept_after(s.take(i as int), keys, now),
            decreases self.leases.len() - i,
        {
            proof {
                assert(s.take(i + 1).drop_last() =~= s.take(i as int));
                assert(s.take(i + 1).last() == self.leases[i as int]@);
            }
            if contains_name(renewed, &self.leases[i].lease_key) && self.leases[i].lease_counter
                < u64::MAX {
                let ghost before = views(kept@);
                let mut lease = self.leases[i].duplicate();
                lease.lease_counter = lease.lease_counter + 1;
                lease.last_renewal_nanos = now;
                let ghost value = lease@;
                kept.push(lease);
                assert(views(kept@) =~= before.push(value));
            }
            i += 1;
        }
        proof {
            assert(s.take(self.leases.len() as int) =~= s);
            lemma_kept_after(s, keys, now);
        }
        self.leases = kept;
    }

    /// The shards of the leases held, in order.
    pub fn owned_shards(&self) -> (shards: Vec<ShardInfo>)
        ensures
            shards.len() == self.held().len(),
            forall|i: int|
                0 <= i < shards.len() ==> (#[trigger] shards[i])@.shard_id
                    == self.held()[i].lease_key && shards[i]@.parent_shard_ids.len() == 0,
    {
        let mut shards: Vec<ShardInfo> = Vec::new();
        let mut i: usize = 0;
        while i < self.leases.len()
            invariant
                i <= self.leases.len(),
                shards.len() == i,
                forall|j: int|
                    0 <= j < shards.len() ==> (#[trigger] shards[j])@.shard_id
                        == self.held()[j].lease_key && shards[j]@.parent_shard_ids.len() == 0,
            decreases self.leases.len() - i,
        {
            shards.push(ShardInfo::from_lease(&self.leases[i]));
            i += 1;
        }
        shards
    }
}

} // verus!
