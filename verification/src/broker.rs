//! The protocol between a worker and the lease table: conditional writes
//! keyed on the lease counter, and how a stored row answers them.
use vstd::prelude::*;
use crate::lease::{Lease, LeaseView, clone_owner, clone_payload, owner_view, payload_view};
use crate::shadow::{
    distinct_keys, find_lease, has_distinct_keys, lemma_position, lemma_upsert, lookup, observed,
    upsert, upsert_lease, views,
};

verus! {

/// Mathematical value of a [`LeaseWrite`].
pub struct LeaseWriteView {
    pub lease_key: Seq<char>,
    pub expected_counter: u64,
    pub expected_owner: Option<Option<Seq<char>>>,
    pub new_owner: Option<Seq<char>>,
    pub checkpoint: Option<Seq<u8>>,
}

/// A conditional write to one row of the lease table.
///
/// The write goes through only if the row still has `expected_counter` and,
/// where `check_owner` is set, still has `expected_owner`. It then sets the
/// owner to `new_owner`, advances the counter by one, and stores
/// `checkpoint` with the row.
#[derive(Debug, Clone)]
pub struct LeaseWrite {
    pub lease_key: String,
    pub expected_counter: u64,
    pub check_owner: bool,
    pub expected_owner: Option<String>,
    pub new_owner: Option<String>,
    pub checkpoint: Option<Vec<u8>>,
}

impl View for LeaseWrite {
    type V = LeaseWriteView;

    open spec fn view(&self) -> LeaseWriteView {
        LeaseWriteView {
            lease_key: self.lease_key@,
            expected_counter: self.expected_counter,
            expected_owner: if self.check_owner {
                Some(owner_view(self.expected_owner))
            } else {
                None
            },
            new_owner: owner_view(self.new_owner),
            checkpoint: payload_view(self.checkpoint),
        }
    }
}

/// The write by which `worker` takes `lease` as it has observed it.
pub open spec fn take_write(lease: LeaseView, worker: Seq<char>) -> LeaseWriteView {
    LeaseWriteView {
        lease_key: lease.lease_key,
        expected_counter: lease.lease_counter,
        expected_owner: None,
        new_owner: Some(worker),
        checkpoint: lease.checkpoint,
    }
}

/// The write by which the holder of `lease` renews it.
pub open spec fn renew_write(lease: LeaseView) -> LeaseWriteView {
    LeaseWriteView {
        lease_key: lease.lease_key,
        expected_counter: lease.lease_counter,
        expected_owner: Some(lease.lease_owner),
        new_owner: lease.lease_owner,
        checkpoint: lease.checkpoint,
    }
}

/// Whether the stored row `row` lets `write` through.
pub open spec fn admits(row: LeaseView, write: LeaseWriteView) -> bool {
    &&& row.lease_key == write.lease_key
    &&& row.lease_counter == write.expected_counter
    &&& row.lease_counter < u64::MAX
    &&& match write.expected_owner {
        Some(owner) => row.lease_owner == owner,
        None => true,
    }
}

/// The stored row after `write` has gone through.
pub open spec fn written(row: LeaseView, write: LeaseWriteView) -> LeaseView {
    LeaseView {
        lease_owner: write.new_owner,
        lease_counter: (row.lease_counter + 1) as u64,
        checkpoint: write.checkpoint,
        ..row
    }
}

/// Builds the write by which `worker` takes `lease`. A lease whose counter
/// cannot advance any further cannot be taken.
pub fn take_request(lease: &Lease, worker: &String) -> (request: Option<LeaseWrite>)
    ensures
        lease.lease_counter == u64::MAX ==> request is None,
        lease.lease_counter < u64::MAX ==> (request matches Some(write) && write@ == take_write(
            lease@,
            worker@,
        )),
{
    if lease.lease_counter == u64::MAX {
        None
    } else {
        Some(
            LeaseWrite {
                lease_key: lease.lease_key.clone(),
                expected_counter: lease.lease_counter,
                check_owner: false,
                expected_owner: None,
                new_owner: Some(worker.clone()),
                checkpoint: clone_payload(&lease.checkpoint),
            },
        )
    }
}

/// Builds the write by which the holder of `lease` renews it. A lease whose
/// counter cannot advance any further cannot be renewed.
pub fn renew_request(lease: &Lease) -> (request: Option<LeaseWrite>)
    ensures
        lease.lease_counter == u64::MAX ==> request is None,
        lease.lease_counter < u64::MAX ==> (request matches Some(write) && write@ == renew_write(
            lease@,
        )),
{
    if lease.lease_counter == u64::MAX {
        None
    } else {
        Some(
            LeaseWrite {
                lease_key: lease.lease_key.clone(),
                expected_counter: lease.lease_counter,
                check_owner: true,
                expected_owner: clone_owner(&lease.lease_owner),
                new_owner: clone_owner(&lease.lease_owner),
                checkpoint: clone_payload(&lease.checkpoint),
            },
        )
    }
}

/// The row that `write` asks the table to hold under its key: the new owner,
/// the counter advanced by one, and the checkpoint. There is none when the
/// counter cannot advance.
pub fn row_to_put(write: &LeaseWrite) -> (row: Option<Lease>)
    ensures
        write.expected_counter == u64::MAX ==> row is None,
        write.expected_counter < u64::MAX ==> (row matches Some(lease) && lease@ == (LeaseView {
            lease_key: write@.lease_key,
            lease_owner: write@.new_owner,
            last_renewal_nanos: 0,
            lease_counter: (write.expected_counter + 1) as u64,
            checkpoint: write@.checkpoint,
        })),
{
    if write.expected_counter == u64::MAX {
        None
    } else {
        Some(
            Lease {
                lease_key: write.lease_key.clone(),
                lease_owner: clone_owner(&write.new_owner),
                last_renewal_nanos: 0,
                lease_counter: write.expected_counter + 1,
                checkpoint: clone_payload(&write.checkpoint),
            },
        )
    }
}

/// Whether two optional owners are the same.
pub fn same_owner(a: &Option<String>, b: &Option<String>) -> (same: bool)
    ensures
        same == (owner_view(*a) == owner_view(*b)),
{
    match a {
        Some(x) => match b {
            Some(y) => *x == *y,
            None => false,
        },
        None => b.is_none(),
    }
}

/// Applies a conditional write to a stored row. Returns whether the write
/// went through; a row that does not admit the write is left as it is.
pub fn apply_write(row: &mut Lease, write: &LeaseWrite) -> (done: bool)
    ensures
        done == admits(old(row)@, write@),
        done ==> final(row)@ == written(old(row)@, write@),
        !done ==> final(row)@ == old(row)@,
{
    if row.lease_key != write.lease_key || row.lease_counter != write.expected_counter
        || row.lease_counter == u64::MAX {
        return false;
    }
    if write.check_owner && !same_owner(&row.lease_owner, &write.expected_owner) {
        return false;
    }
    row.lease_owner = clone_owner(&write.new_owner);
    row.lease_counter = row.lease_counter + 1;
    row.checkpoint = clone_payload(&write.checkpoint);
    true
}

/// A lease table held in memory, answering scans and conditional writes as
/// the stored table does.
pub struct LeaseTable {
    pub rows: Vec<Lease>,
}

impl LeaseTable {
    /// The table holds one row per key.
    pub open spec fn wf(&self) -> bool {
        distinct_keys(views(self.rows@))
    }

    /// The rows of the table.
    pub open spec fn rows_view(&self) -> Seq<LeaseView> {
        views(self.rows@)
    }

    /// Whether the table holds one row per key.
    pub fn is_wf(&self) -> (ok: bool)
        ensures
            ok == self.wf(),
    {
        has_distinct_keys(&self.rows)
    }

    /// An empty table.
    pub fn new() -> (table: LeaseTable)
        ensures
            table.wf(),
            table.rows_view() == Seq::<LeaseView>::empty(),
    {
        let table = LeaseTable { rows: Vec::new() };
        assert(table.rows_view() =~= Seq::<LeaseView>::empty());
        table
    }

    /// Stores `lease` under its key, in place of any row with that key.
    pub fn put(&mut self, lease: Lease)
        requires
            old(self).wf(),
        ensures
            final(self).wf(),
            final(self).rows_view() == upsert(old(self).rows_view(), lease@),
    {
        proof {
            lemma_upsert(self.rows_view(), lease@);
        }
        upsert_lease(&mut self.rows, lease);
    }

    /// A full scan: a copy of every row.
    pub fn list_all(&self) -> (leases: Vec<Lease>)
        ensures
            views(leases@) == self.rows_view(),
    {
        let mut leases: Vec<Lease> = Vec::new();
        let mut i: usize = 0;
        while i < self.rows.len()
            invariant
                i <= self.rows.len(),
                views(leases@) == self.rows_view().take(i as int),
            decreases self.rows.len() - i,
        {
            let ghost before = views(leases@);
            let copy = self.rows[i].duplicate();
            leases.push(copy);
            assert(views(leases@) =~= before.push(copy@));
            assert(self.rows_view().take(i + 1) =~= self.rows_view().take(i as int).push(copy@));
            i += 1;
        }
        assert(self.rows_view().take(self.rows.len() as int) =~= self.rows_view());
        leases
    }

    /// Applies a conditional write to the row it names. Returns whether the
    /// write went through; it does not when the table has no such row or the
    /// row does not admit it, and the table is then left as it is.
    pub fn write(&mut self, write: &LeaseWrite) -> (done: bool)
        requires
            old(self).wf(),
        ensures
            final(self).wf(),
            match lookup(old(self).rows_view(), write@.lease_key) {
                Some(row) => done == admits(row, write@) && final(self).rows_view() == if done {
                    upsert(old(self).rows_view(), written(row, write@))
                } else {
                    old(self).rows_view()
                },
                None => !done && final(self).rows_view() == old(self).rows_view(),
            },
    {
        let ghost before = self.rows_view();
        match find_lease(&self.rows, &write.lease_key) {
            Some(i) => {
                proof {
                    lemma_position(before, write@.lease_key);
                }
                let mut row = self.rows[i].duplicate();
                let done = apply_write(&mut row, write);
                if done {
                    proof {
                        lemma_upsert(before, row@);
                    }
                    self.rows.set(i, row);
                    assert(self.rows_view() =~= before.update(i as int, row@));
                }
                done
            },
            None => false,
        }
    }
}

/// A worker's picture `local` of a lease is in step with the stored row: it
/// is no newer than the row, and where it is as new, it names the row's
/// owner.
pub open spec fn in_step(row: LeaseView, local: LeaseView) -> bool {
    local.lease_key == row.lease_key ==> {
        &&& local.lease_counter <= row.lease_counter
        &&& local.lease_counter == row.lease_counter ==> local.lease_owner == row.lease_owner
    }
}

/// `worker` holds the lease by a picture that is as new as the stored row.
pub open spec fn holds_current(row: LeaseView, local: LeaseView, worker: Seq<char>) -> bool {
    &&& local.lease_key == row.lease_key
    &&& local.lease_counter == row.lease_counter
    &&& local.owned_by(worker)
}

/// Of two writes that expect the same counter, the store lets at most one
/// through: once the first has gone through, the row rejects the second.
pub proof fn lemma_one_write_wins(row: LeaseView, first: LeaseWriteView, second: LeaseWriteView)
    requires
        first.expected_counter == second.expected_counter,
        admits(row, first),
    ensures
        !admits(written(row, first), second),
{
}

/// A picture taken from a scan of the row is in step with the row.
pub proof fn lemma_scan_in_step(prior: Option<LeaseView>, row: LeaseView, scan_time: u64)
    ensures
        in_step(row, observed(prior, row, scan_time)),
{
}

/// When the store lets a worker take a lease, the worker's picture, brought
/// up to date, is in step with the row.
pub proof fn lemma_take_in_step(row: LeaseView, local: LeaseView, worker: Seq<char>, now: u64)
    requires
        admits(row, take_write(local, worker)),
    ensures
        in_step(written(row, take_write(local, worker)), local.taken_by(worker, now)),
        holds_current(
            written(row, take_write(local, worker)),
            local.taken_by(worker, now),
            worker,
        ),
{
}

/// When the store lets the holder renew a lease, the holder's picture,
/// brought up to date, is in step with the row.
pub proof fn lemma_renew_in_step(row: LeaseView, local: LeaseView, now: u64)
    requires
        admits(row, renew_write(local)),
    ensures
        in_step(written(row, renew_write(local)), local.renewed(now)),
{
}

/// A write that goes through leaves every picture in step that was in step:
/// the pictures of other workers are older than the row from then on.
pub proof fn lemma_write_keeps_in_step(row: LeaseView, local: LeaseView, write: LeaseWriteView)
    requires
        in_step(row, local),
        admits(row, write),
    ensures
        in_step(written(row, write), local),
        local.lease_key == row.lease_key ==> local.lease_counter < written(
            row,
            write,
        ).lease_counter,
{
}

/// At most one worker holds a lease by a picture as new as the stored row:
/// two such workers are the same.
pub proof fn lemma_single_holder(
    row: LeaseView,
    first_local: LeaseView,
    first: Seq<char>,
    second_local: LeaseView,
    second: Seq<char>,
)
    requires
        in_step(row, first_local),
        in_step(row, second_local),
        holds_current(row, first_local, first),
        holds_current(row, second_local, second),
    ensures
        first == second,
{
}

} // verus!
