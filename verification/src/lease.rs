//! The lease record a worker keeps for every shard it has seen, and the
//! shard descriptor derived from it.
use vstd::prelude::*;

verus! {

/// Mathematical value of a [`Lease`].
pub struct LeaseView {
    pub lease_key: Seq<char>,
    pub lease_owner: Option<Seq<char>>,
    pub last_renewal_nanos: u64,
    pub lease_counter: u64,
    pub checkpoint: Option<Seq<u8>>,
}

/// A worker's in-memory record of the claim on one shard.
///
/// `lease_key`, `lease_owner`, `lease_counter` and `checkpoint` mirror the
/// stored row; `last_renewal_nanos` is local to this worker and holds the
/// monotonic clock reading at which it last saw `lease_counter` move. The
/// checkpoint is the application's own payload: it is carried along and never
/// looked into.
#[derive(Debug, PartialEq, Eq, Hash, Clone)]
pub struct Lease {
    pub lease_key: String,
    pub lease_owner: Option<String>,
    pub last_renewal_nanos: u64,
    pub lease_counter: u64,
    pub checkpoint: Option<Vec<u8>>,
}

/// View of an optional payload.
pub open spec fn payload_view(payload: Option<Vec<u8>>) -> Option<Seq<u8>> {
    match payload {
        Some(bytes) => Some(bytes@),
        None => None,
    }
}

/// View of an optional string.
pub open spec fn owner_view(owner: Option<String>) -> Option<Seq<char>> {
    match owner {
        Some(name) => Some(name@),
        None => None,
    }
}

impl View for Lease {
    type V = LeaseView;

    open spec fn view(&self) -> LeaseView {
        LeaseView {
            lease_key: self.lease_key@,
            lease_owner: owner_view(self.lease_owner),
            last_renewal_nanos: self.last_renewal_nanos,
            lease_counter: self.lease_counter,
            checkpoint: payload_view(self.checkpoint),
        }
    }
}

impl LeaseView {
    /// Whether the lease counts as expired at clock reading `now`: strictly
    /// more than `failover_nanos` have passed since the last renewal.
    pub open spec fn is_expired(self, now: u64, failover_nanos: u64) -> bool {
        now - self.last_renewal_nanos > failover_nanos
    }

    /// Whether `worker` is recorded as the owner.
    pub open spec fn owned_by(self, worker: Seq<char>) -> bool {
        self.lease_owner == Some(worker)
    }

    /// The same lease with another local renewal time.
    pub open spec fn with_renewal(self, nanos: u64) -> LeaseView {
        LeaseView { last_renewal_nanos: nanos, ..self }
    }

    /// The lease after `worker` has taken it at clock reading `now`: the
    /// worker owns it and the counter has advanced by one.
    pub open spec fn taken_by(self, worker: Seq<char>, now: u64) -> LeaseView {
        LeaseView {
            lease_owner: Some(worker),
            lease_counter: (self.lease_counter + 1) as u64,
            last_renewal_nanos: now,
            ..self
        }
    }

    /// The lease after its owner has renewed it at clock reading `now`: the
    /// counter has advanced by one.
    pub open spec fn renewed(self, now: u64) -> LeaseView {
        LeaseView {
            lease_counter: (self.lease_counter + 1) as u64,
            last_renewal_nanos: now,
            ..self
        }
    }
}

/// Copies an optional string.
pub fn clone_owner(owner: &Option<String>) -> (copy: Option<String>)
    ensures
        owner_view(copy) == owner_view(*owner),
{
    match owner {
        Some(name) => Some(name.clone()),
        None => None,
    }
}

/// Copies an optional payload.
pub fn clone_payload(payload: &Option<Vec<u8>>) -> (copy: Option<Vec<u8>>)
    ensures
        payload_view(copy) == payload_view(*payload),
{
    match payload {
        Some(bytes) => {
            let mut copy: Vec<u8> = Vec::new();
            let mut i: usize = 0;
            while i < bytes.len()
                invariant
                    i <= bytes.len(),
                    copy@ == bytes@.take(i as int),
                decreases bytes.len() - i,
            {
                copy.push(bytes[i]);
                assert(copy@ =~= bytes@.take(i + 1));
                i += 1;
            }
            assert(bytes@.take(bytes.len() as int) =~= bytes@);
            Some(copy)
        },
        None => None,
    }
}

/// Whether an optional owner names exactly `worker`.
pub fn owner_is(owner: &Option<String>, worker: &String) -> (same: bool)
    ensures
        same == (owner_view(*owner) == Some(worker@)),
{
    match owner {
        Some(name) => *name == *worker,
        None => false,
    }
}

impl Lease {
    /// A lease as first read from the store, not yet timed locally and
    /// without a checkpoint.
    pub fn new(lease_key: String, lease_owner: Option<String>, lease_counter: u64) -> (lease:
        Lease)
        ensures
            lease@ == (LeaseView {
                lease_key: lease_key@,
                lease_owner: owner_view(lease_owner),
                last_renewal_nanos: 0,
                lease_counter,
                checkpoint: None,
            }),
    {
        Lease { lease_key, lease_owner, last_renewal_nanos: 0, lease_counter, checkpoint: None }
    }

    /// The same lease with another checkpoint.
    pub fn with_checkpoint(self, checkpoint: Option<Vec<u8>>) -> (lease: Lease)
        ensures
            lease@ == (LeaseView { checkpoint: payload_view(checkpoint), ..self@ }),
    {
        Lease {
            lease_key: self.lease_key,
            lease_owner: self.lease_owner,
            last_renewal_nanos: self.last_renewal_nanos,
            lease_counter: self.lease_counter,
            checkpoint,
        }
    }

    /// Whether this worker should treat the lease as expired at monotonic
    /// clock reading `now`, given the failover time in nanoseconds.
    pub fn is_expired(&self, now: u64, failover_nanos: u64) -> (expired: bool)
        ensures
            expired == self@.is_expired(now, failover_nanos),
    {
        now > self.last_renewal_nanos && now - self.last_renewal_nanos > failover_nanos
    }

    /// A copy with the same value.
    pub fn duplicate(&self) -> (copy: Lease)
        ensures
            copy@ == self@,
    {
        Lease {
            lease_key: self.lease_key.clone(),
            lease_owner: clone_owner(&self.lease_owner),
            last_renewal_nanos: self.last_renewal_nanos,
            lease_counter: self.lease_counter,
            checkpoint: clone_payload(&self.checkpoint),
        }
    }
}

/// Mathematical value of a [`ShardInfo`].
pub struct ShardInfoView {
    pub shard_id: Seq<char>,
    pub parent_shard_ids: Seq<Seq<char>>,
}

/// Describes the shard a lease governs. Two descriptors denote the same shard
/// when their shard ids agree; parents do not take part in the comparison.
#[derive(Debug, Clone)]
pub struct ShardInfo {
    pub shard_id: String,
    pub parent_shard_ids: Vec<String>,
}

/// Views of a list of strings.
pub open spec fn names_view(names: Seq<String>) -> Seq<Seq<char>> {
    names.map_values(|name: String| name@)
}

/// Whether `names` holds `name`.
pub fn contains_name(names: &Vec<String>, name: &String) -> (found: bool)
    ensures
        found == names_view(names@).contains(name@),
{
    let mut i: usize = 0;
    while i < names.len()
        invariant
            i <= names.len(),
            forall|j: int| 0 <= j < i ==> #[trigger] names_view(names@)[j] != name@,
        decreases names.len() - i,
    {
        if names[i] == *name {
            assert(names_view(names@)[i as int] == name@);
            return true;
        }
        i += 1;
    }
    false
}

impl View for ShardInfo {
    type V = ShardInfoView;

    open spec fn view(&self) -> ShardInfoView {
        ShardInfoView {
            shard_id: self.shard_id@,
            parent_shard_ids: names_view(self.parent_shard_ids@),
        }
    }
}

impl ShardInfo {
    /// The shard that `lease` governs: its id is the lease key, and a lease
    /// records no parents.
    pub fn from_lease(lease: &Lease) -> (shard: ShardInfo)
        ensures
            shard@.shard_id == lease@.lease_key,
            shard@.parent_shard_ids == Seq::<Seq<char>>::empty(),
    {
        ShardInfo { shard_id: lease.lease_key.clone(), parent_shard_ids: Vec::new() }
    }

    /// A copy with the same value.
    pub fn duplicate(&self) -> (copy: ShardInfo)
        ensures
            copy@ == self@,
    {
        let mut parents: Vec<String> = Vec::new();
        let mut i: usize = 0;
        while i < self.parent_shard_ids.len()
            invariant
                i <= self.parent_shard_ids.len(),
                names_view(parents@) == names_view(self.parent_shard_ids@).take(i as int),
            decreases self.parent_shard_ids.len() - i,
        {
            let ghost before = names_view(parents@);
            let parent = self.parent_shard_ids[i].clone();
            parents.push(parent);
            assert(names_view(parents@) =~= before.push(parent@));
            assert(names_view(self.parent_shard_ids@).take(i + 1) =~= names_view(
                self.parent_shard_ids@,
            ).take(i as int).push(parent@));
            i += 1;
        }
        assert(names_view(self.parent_shard_ids@).take(self.parent_shard_ids.len() as int)
            =~= names_view(self.parent_shard_ids@));
        ShardInfo { shard_id: self.shard_id.clone(), parent_shard_ids: parents }
    }

    /// Whether both descriptors denote the same shard.
    pub fn same_shard(&self, other: &ShardInfo) -> (same: bool)
        ensures
            same == (self@.shard_id == other@.shard_id),
    {
        self.shard_id == other.shard_id
    }
}

/// The values of a list of shard descriptors.
pub open spec fn shard_views(shards: Seq<ShardInfo>) -> Seq<ShardInfoView> {
    shards.map_values(|shard: ShardInfo| shard@)
}

/// The shard ids of a list of shard descriptors.
pub open spec fn shard_ids(shards: Seq<ShardInfoView>) -> Seq<Seq<char>> {
    shards.map_values(|shard: ShardInfoView| shard.shard_id)
}

/// Whether `shards` holds a shard with id `id`.
pub fn has_shard(shards: &Vec<ShardInfo>, id: &String) -> (found: bool)
    ensures
        found == shard_ids(shard_views(shards@)).contains(id@),
{
    let ghost ids = shard_ids(shard_views(shards@));
    let mut i: usize = 0;
    while i < shards.len()
        invariant
            i <= shards.len(),
            ids == shard_ids(shard_views(shards@)),
            forall|j: int| 0 <= j < i ==> #[trigger] ids[j] != id@,
        decreases shards.len() - i,
    {
        if shards[i].shard_id == *id {
            assert(ids[i as int] == id@);
            return true;
        }
        i += 1;
    }
    false
}

} // verus!
