//! What a worker knows of the stream's shards: a cache with a time to live,
//! and the paging by which the list of shards is fetched.
use vstd::prelude::*;
use crate::lease::{ShardInfo, ShardInfoView, owner_view, shard_views};

verus! {

/// The shards of a stream as last listed, kept for a limited time.
pub struct ShardCache {
    pub cache: Vec<ShardInfo>,
    pub last_cache_update: Option<u64>,
    pub cache_ttl_nanos: u64,
}

/// Index of the first shard with id `id`, or `shards.len()`.
pub open spec fn shard_position(shards: Seq<ShardInfoView>, id: Seq<char>) -> int
    decreases shards.len(),
{
    if shards.len() == 0 {
        0
    } else if shards.first().shard_id == id {
        0
    } else {
        1 + shard_position(shards.drop_first(), id)
    }
}

/// `shard_position` is the least index that holds the id.
pub proof fn lemma_shard_position(shards: Seq<ShardInfoView>, id: Seq<char>)
    ensures
        0 <= shard_position(shards, id) <= shards.len(),
        shard_position(shards, id) < shards.len() ==> shards[shard_position(
            shards,
            id,
        )].shard_id == id,
        forall|j: int|
            0 <= j < shard_position(shards, id) ==> (#[trigger] shards[j]).shard_id != id,
    decreases shards.len(),
{
    if shards.len() > 0 && shards.first().shard_id != id {
        let rest = shards.drop_first();
        lemma_shard_position(rest, id);
        assert forall|j: int| 0 <= j < shard_position(shards, id) implies (
        #[trigger] shards[j]).shard_id != id by {
            if j > 0 {
                assert(shards[j] == rest[j - 1]);
            }
        }
    }
}

/// An index that holds the id, with no earlier index holding it, is the
/// position of the id.
pub proof fn lemma_shard_position_is(shards: Seq<ShardInfoView>, id: Seq<char>, i: int)
    requires
        0 <= i <= shards.len(),
        forall|j: int| 0 <= j < i ==> (#[trigger] shards[j]).shard_id != id,
        i < shards.len() ==> shards[i].shard_id == id,
    ensures
        shard_position(shards, id) == i,
{
    lemma_shard_position(shards, id);
    let p = shard_position(shards, id);
    if p < i {
        assert(shards[p].shard_id != id);
    } else if p > i {
        assert(shards[i].shard_id != id);
    }
}

/// Puts `shard` in the place of the shard with its id, or at the end.
pub open spec fn put_shard(shards: Seq<ShardInfoView>, shard: ShardInfoView) -> Seq<ShardInfoView> {
    let at = shard_position(shards, shard.shard_id);
    if at < shards.len() {
        shards.update(at, shard)
    } else {
        shards.push(shard)
    }
}

/// The cache filled from a listing: each listed shard put in turn, so that of
/// two with one id the later stays.
pub open spec fn filled(listed: Seq<ShardInfoView>) -> Seq<ShardInfoView>
    decreases listed.len(),
{
    if listed.len() == 0 {
        Seq::empty()
    } else {
        put_shard(filled(listed.drop_last()), listed.last())
    }
}

/// Whether a cache last filled at `last_update` is too old at `now`.
pub open spec fn too_old(last_update: Option<u64>, ttl_nanos: u64, now: u64) -> bool {
    match last_update {
        Some(at) => at + ttl_nanos < now,
        None => true,
    }
}

/// Finds the shard with id `id`.
pub fn find_shard(shards: &Vec<ShardInfo>, id: &String) -> (found: Option<usize>)
    ensures
        match found {
            Some(i) => i == shard_position(shard_views(shards@), id@) && i < shards.len(),
            None => shard_position(shard_views(shards@), id@) == shards.len(),
        },
{
    let mut i: usize = 0;
    while i < shards.len()
        invariant
            i <= shards.len(),
            forall|j: int| 0 <= j < i ==> (#[trigger] shard_views(shards@)[j]).shard_id != id@,
        decreases shards.len() - i,
    {
        if shards[i].shard_id == *id {
            proof {
                assert(shard_views(shards@)[i as int].shard_id == id@);
                lemma_shard_position_is(shard_views(shards@), id@, i as int);
            }
            return Some(i);
        }
        i += 1;
    }
    proof {
        lemma_shard_position_is(shard_views(shards@), id@, shards.len() as int);
    }
    None
}

impl ShardCache {
    /// The shards held.
    pub open spec fn shards(&self) -> Seq<ShardInfoView> {
        shard_views(self.cache@)
    }

    /// An empty cache that was never filled.
    pub fn new(cache_ttl_nanos: u64) -> (cache: ShardCache)
        ensures
            cache.shards() == Seq::<ShardInfoView>::empty(),
            cache.last_cache_update is None,
            cache.cache_ttl_nanos == cache_ttl_nanos,
    {
        let cache = ShardCache { cache: Vec::new(), last_cache_update: None, cache_ttl_nanos };
        assert(cache.shards() =~= Seq::<ShardInfoView>::empty());
        cache
    }

    /// Whether the cache is too old to answer at clock reading `now`: it was
    /// never filled, or more than the time to live has passed since.
    pub fn cache_is_expired(&self, now: u64) -> (expired: bool)
        ensures
            expired == too_old(self.last_cache_update, self.cache_ttl_nanos, now),
    {
        match self.last_cache_update {
            Some(at) => now > at && now - at > self.cache_ttl_nanos,
            None => true,
        }
    }

    /// The shard with id `shard_id`, unless the cache is too old or holds no
    /// such shard.
    pub fn get_shard(&self, shard_id: &String, now: u64) -> (shard: Option<ShardInfo>)
        ensures
            match shard {
                Some(found) => !too_old(self.last_cache_update, self.cache_ttl_nanos, now)
                    && shard_position(self.shards(), shard_id@) < self.shards().len() && found@
                    == self.shards()[shard_position(self.shards(), shard_id@)],
                None => too_old(self.last_cache_update, self.cache_ttl_nanos, now)
                    || shard_position(self.shards(), shard_id@) == self.shards().len(),
            },
    {
        if self.cache_is_expired(now) {
            None
        } else {
            match find_shard(&self.cache, shard_id) {
                Some(i) => Some(self.cache[i].duplicate()),
                None => None,
            }
        }
    }

    /// Every shard held; none when the cache is too old.
    pub fn get_all_shards(&self, now: u64) -> (shards: Vec<ShardInfo>)
        ensures
            shard_views(shards@) == if too_old(self.last_cache_update, self.cache_ttl_nanos, now) {
                Seq::<ShardInfoView>::empty()
            } else {
                self.shards()
            },
    {
        let mut shards: Vec<ShardInfo> = Vec::new();
        if self.cache_is_expired(now) {
            assert(shard_views(shards@) =~= Seq::<ShardInfoView>::empty());
            return shards;
        }
        let mut i: usize = 0;
        while i < self.cache.len()
            invariant
                i <= self.cache.len(),
                shard_views(shards@) == self.shards().take(i as int),
            decreases self.cache.len() - i,
        {
            let ghost before = shard_views(shards@);
            let copy = self.cache[i].duplicate();
            shards.push(copy);
            assert(shard_views(shards@) =~= before.push(copy@));
            assert(self.shards().take(i + 1) =~= self.shards().take(i as int).push(copy@));
            i += 1;
        }
        assert(self.shards().take(self.cache.len() as int) =~= self.shards());
        shards
    }

    /// Fills the cache from a fresh listing taken at clock reading `now`.
    pub fn refresh(&mut self, listed: &Vec<ShardInfo>, now: u64)
        ensures
            final(self).shards() == filled(shard_views(listed@)),
            final(self).last_cache_update == Some(now),
            final(self).cache_ttl_nanos == old(self).cache_ttl_nanos,
    {
        let ghost all = shard_views(listed@);
        let mut cache: Vec<ShardInfo> = Vec::new();
        let mut i: usize = 0;
        assert(shard_views(cache@) =~= filled(all.take(0)));
        while i < listed.len()
            invariant
                i <= listed.len(),
                all == shard_views(listed@),
                shard_views(cache@) == filled(all.take(i as int)),
            decreases listed.len() - i,
        {
            let ghost before = shard_views(cache@);
            let copy = listed[i].duplicate();
            proof {
                assert(all.take(i + 1).drop_last() =~= all.take(i as int));
                assert(all.take(i + 1).last() == copy@);
            }
            match find_shard(&cache, &copy.shard_id) {
                Some(at) => {
                    cache.set(at, copy);
                    assert(shard_views(cache@) =~= before.update(at as int, listed[i as int]@));
                },
                None => {
                    cache.push(copy);
                    assert(shard_views(cache@) =~= before.push(listed[i as int]@));
                },
            }
            i += 1;
        }
        assert(all.take(listed.len() as int) =~= all);
        self.cache = cache;
        self.last_cache_update = Some(now);
    }
}

/// Mathematical value of a [`ListShardsRequest`].
pub struct ListShardsRequestView {
    pub stream_name: Option<Seq<char>>,
    pub next_token: Option<Seq<char>>,
}

/// A request for one page of the list of shards. Every request names the
/// stream; each but the first carries the token that came with the page
/// before.
#[derive(Debug, Clone, PartialEq, Eq)]
pub struct ListShardsRequest {
    pub stream_name: Option<String>,
    pub next_token: Option<String>,
}

impl View for ListShardsRequest {
    type V = ListShardsRequestView;

    open spec fn view(&self) -> ListShardsRequestView {
        ListShardsRequestView {
            stream_name: owner_view(self.stream_name),
            next_token: owner_view(self.next_token),
        }
    }
}

/// The listing of a stream's shards, page by page.
pub struct StreamLayout {
    pub stream_name: String,
    pub collected: Vec<ShardInfo>,
}

impl StreamLayout {
    /// The shards collected so far.
    pub open spec fn shards(&self) -> Seq<ShardInfoView> {
        shard_views(self.collected@)
    }

    /// A listing of stream `stream_name` with nothing collected.
    pub fn new(stream_name: String) -> (layout: StreamLayout)
        ensures
            layout.stream_name == stream_name,
            layout.shards() == Seq::<ShardInfoView>::empty(),
    {
        let layout = StreamLayout { stream_name, collected: Vec::new() };
        assert(layout.shards() =~= Seq::<ShardInfoView>::empty());
        layout
    }

    /// Starts a listing: forgets what was collected and returns the request
    /// for the first page.
    pub fn list_shards(&mut self) -> (request: ListShardsRequest)
        ensures
            final(self).shards() == Seq::<ShardInfoView>::empty(),
            final(self).stream_name == old(self).stream_name,
            request@ == (ListShardsRequestView {
                stream_name: Some(old(self).stream_name@),
                next_token: None,
            }),
    {
        self.collected = Vec::new();
        assert(self.shards() =~= Seq::<ShardInfoView>::empty());
        ListShardsRequest { stream_name: Some(self.stream_name.clone()), next_token: None }
    }

    /// Takes in one page of the listing, and returns the request for the next
    /// page when the page came with a token. Without a token the listing is
    /// complete.
    pub fn get_shards(&mut self, page: Vec<ShardInfo>, next_token: Option<String>) -> (request:
        Option<ListShardsRequest>)
        ensures
            final(self).shards() == old(self).shards() + shard_views(page@),
            final(self).stream_name == old(self).stream_name,
            match request {
                Some(next) => next@ == (ListShardsRequestView {
                    stream_name: Some(old(self).stream_name@),
                    next_token: owner_view(next_token),
                }) && next_token is Some,
                None => next_token is None,
            },
    {
        let ghost before = self.shards();
        let ghost added = page@;
        let mut page = page;
        self.collected.append(&mut page);
        assert(self.shards() =~= before + shard_views(added)) by {
            assert(self.collected@ =~= old(self).collected@ + added);
        }
        match next_token {
            Some(token) => Some(
                ListShardsRequest {
                    stream_name: Some(self.stream_name.clone()),
                    next_token: Some(token),
                },
            ),
            None => None,
        }
    }
}

} // verus!
