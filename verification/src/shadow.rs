//! Keyed lists of leases: lookup by lease key, insertion that keeps one entry
//! per key, and the rule by which a fresh scan is merged into what a worker
//! already knows.
use vstd::prelude::*;
use crate::lease::{Lease, LeaseView};

verus! {

/// The values of a list of leases.
pub open spec fn views(leases: Seq<Lease>) -> Seq<LeaseView> {
    leases.map_values(|lease: Lease| lease@)
}

/// No two entries share a lease key.
pub open spec fn distinct_keys(s: Seq<LeaseView>) -> bool {
    forall|i: int, j: int|
        0 <= i < j < s.len() ==> (#[trigger] s[i]).lease_key != (#[trigger] s[j]).lease_key
}

/// Index of the first entry with key `key`, or `s.len()` when there is none.
pub open spec fn position(s: Seq<LeaseView>, key: Seq<char>) -> int
    decreases s.len(),
{
    if s.len() == 0 {
        0
    } else if s.first().lease_key == key {
        0
    } else {
        1 + position(s.drop_first(), key)
    }
}

/// Whether some entry has key `key`.
pub open spec fn has_key(s: Seq<LeaseView>, key: Seq<char>) -> bool {
    position(s, key) < s.len()
}

/// The first entry with key `key`, if any.
pub open spec fn lookup(s: Seq<LeaseView>, key: Seq<char>) -> Option<LeaseView> {
    if has_key(s, key) {
        Some(s[position(s, key)])
    } else {
        None
    }
}

/// Replaces the entry that has the key of `lease`, or appends `lease` when no
/// entry has it.
pub open spec fn upsert(s: Seq<LeaseView>, lease: LeaseView) -> Seq<LeaseView> {
    if has_key(s, lease.lease_key) {
        s.update(position(s, lease.lease_key), lease)
    } else {
        s.push(lease)
    }
}

/// `position` is the least index holding the key, and is `s.len()` exactly
/// when no index holds it.
pub proof fn lemma_position(s: Seq<LeaseView>, key: Seq<char>)
    ensures
        0 <= position(s, key) <= s.len(),
        has_key(s, key) ==> s[position(s, key)].lease_key == key,
        forall|j: int| 0 <= j < position(s, key) ==> (#[trigger] s[j]).lease_key != key,
    decreases s.len(),
{
    if s.len() > 0 && s.first().lease_key != key {
        let rest = s.drop_first();
        lemma_position(rest, key);
        assert forall|j: int| 0 <= j < position(s, key) implies (#[trigger] s[j]).lease_key
            != key by {
            if j > 0 {
                assert(s[j] == rest[j - 1]);
            }
        }
    }
}

/// An index that holds the key, with no earlier index holding it, is the
/// position of the key.
pub proof fn lemma_position_is(s: Seq<LeaseView>, key: Seq<char>, i: int)
    requires
        0 <= i <= s.len(),
        forall|j: int| 0 <= j < i ==> (#[trigger] s[j]).lease_key != key,
        i < s.len() ==> s[i].lease_key == key,
    ensures
        position(s, key) == i,
{
    lemma_position(s, key);
    let p = position(s, key);
    if p < i {
        assert(s[p].lease_key != key);
    } else if p > i {
        assert(s[i].lease_key != key);
    }
}

/// Inserting by key keeps keys distinct and keeps every other key's entry.
pub proof fn lemma_upsert(s: Seq<LeaseView>, lease: LeaseView)
    requires
        distinct_keys(s),
    ensures
        distinct_keys(upsert(s, lease)),
        lookup(upsert(s, lease), lease.lease_key) == Some(lease),
        forall|key: Seq<char>|
            key != lease.lease_key ==> #[trigger] lookup(upsert(s, lease), key) == lookup(s, key),
{
    let t = upsert(s, lease);
    let p = position(s, lease.lease_key);
    lemma_position(s, lease.lease_key);
    assert forall|i: int, j: int| 0 <= i < j < t.len() implies (#[trigger] t[i]).lease_key != (
    #[trigger] t[j]).lease_key by {
        if has_key(s, lease.lease_key) {
            if i == p {
                assert(s[j].lease_key != s[p].lease_key);
            } else if j == p {
                assert(s[i].lease_key != s[p].lease_key);
            } else {
                assert(s[i].lease_key != s[j].lease_key);
            }
        } else {
            if j == s.len() {
                assert(s[i].lease_key != lease.lease_key);
            } else {
                assert(s[i].lease_key != s[j].lease_key);
            }
        }
    }
    lemma_position_is(t, lease.lease_key, p);
    assert forall|key: Seq<char>| key != lease.lease_key implies #[trigger] lookup(t, key)
        == lookup(s, key) by {
        lemma_position(s, key);
        let q = position(s, key);
        assert forall|j: int| 0 <= j < q implies (#[trigger] t[j]).lease_key != key by {
            if j < s.len() && j != p {
                assert(t[j] == s[j]);
            }
        }
        if q < s.len() {
            assert(t[q] == s[q]);
            lemma_position_is(t, key, q);
        } else {
            assert forall|j: int| 0 <= j < t.len() implies (#[trigger] t[j]).lease_key
                != key by {
                if j < s.len() && j != p {
                    assert(t[j] == s[j]);
                }
            }
            lemma_position_is(t, key, t.len() as int);
        }
    }
}

/// Finds the entry with key `key`.
pub fn find_lease(leases: &Vec<Lease>, key: &String) -> (found: Option<usize>)
    ensures
        match found {
            Some(i) => i == position(views(leases@), key@) && i < leases.len(),
            None => !has_key(views(leases@), key@),
        },
{
    let mut i: usize = 0;
    while i < leases.len()
        invariant
            i <= leases.len(),
            forall|j: int| 0 <= j < i ==> (#[trigger] views(leases@)[j]).lease_key != key@,
        decreases leases.len() - i,
    {
        if leases[i].lease_key == *key {
            proof {
                assert(views(leases@)[i as int].lease_key == key@);
                lemma_position_is(views(leases@), key@, i as int);
            }
            return Some(i);
        }
        i += 1;
    }
    proof {
        lemma_position_is(views(leases@), key@, leases.len() as int);
    }
    None
}


/// How a freshly scanned lease is timed locally, given what the worker knew
/// of that key before (`prior`) and the clock reading of the scan.
///
/// A known lease whose counter has not moved keeps its renewal time. A known
/// lease whose counter moved, and a new lease that has an owner, are timed at
/// the scan. A new lease without an owner is timed at zero.
pub open spec fn observed(prior: Option<LeaseView>, scanned: LeaseView, scan_time: u64)
    -> LeaseView {
    match prior {
        Some(known) => if known.lease_counter == scanned.lease_counter {
            scanned.with_renewal(known.last_renewal_nanos)
        } else {
            scanned.with_renewal(scan_time)
        },
        None => if scanned.lease_owner is None {
            scanned.with_renewal(0)
        } else {
            scanned.with_renewal(scan_time)
        },
    }
}

/// Merges the scanned leases into `s` one after another, each timed against
/// the list as it stands when its turn comes.
pub open spec fn absorb(s: Seq<LeaseView>, source: Seq<LeaseView>, scan_time: u64) -> Seq<
    LeaseView,
>
    decreases source.len(),
{
    if source.len() == 0 {
        s
    } else {
        let merged = absorb(s, source.drop_last(), scan_time);
        let scanned = source.last();
        upsert(merged, observed(lookup(merged, scanned.lease_key), scanned, scan_time))
    }
}

/// The entries of `s` whose key occurs in `source`, in their order in `s`.
pub open spec fn retain_scanned(s: Seq<LeaseView>, source: Seq<LeaseView>) -> Seq<LeaseView>
    decreases s.len(),
{
    if s.len() == 0 {
        s
    } else {
        let rest = retain_scanned(s.drop_last(), source);
        if has_key(source, s.last().lease_key) {
            rest.push(s.last())
        } else {
            rest
        }
    }
}

/// What a worker knows after a scan: the scanned leases merged into what it
/// knew, and everything the scan did not return forgotten.
pub open spec fn refreshed(s: Seq<LeaseView>, source: Seq<LeaseView>, scan_time: u64) -> Seq<
    LeaseView,
> {
    retain_scanned(absorb(s, source, scan_time), source)
}

/// Every retained entry was an entry before, and order is kept.
pub proof fn lemma_retain_scanned(s: Seq<LeaseView>, source: Seq<LeaseView>)
    ensures
        retain_scanned(s, source).len() <= s.len(),
        forall|k: int|
            0 <= k < retain_scanned(s, source).len() ==> has_key(
                source,
                (#[trigger] retain_scanned(s, source)[k]).lease_key,
            ),
        distinct_keys(s) ==> distinct_keys(retain_scanned(s, source)),
        forall|k: int|
            0 <= k < retain_scanned(s, source).len() ==> exists|i: int|
                0 <= i < s.len() && s[i] == #[trigger] retain_scanned(s, source)[k],
    decreases s.len(),
{
    if s.len() > 0 {
        let front = s.drop_last();
        let rest = retain_scanned(front, source);
        let out = retain_scanned(s, source);
        lemma_retain_scanned(front, source);
        assert forall|k: int| 0 <= k < out.len() implies exists|i: int|
            0 <= i < s.len() && s[i] == #[trigger] out[k] by {
            if k < rest.len() {
                let i = choose|i: int| 0 <= i < front.len() && front[i] == rest[k];
                assert(s[i] == out[k]);
            } else {
                assert(s[s.len() - 1] == out[k]);
            }
        }
        if distinct_keys(s) {
            assert(distinct_keys(front)) by {
                assert forall|i: int, j: int| 0 <= i < j < front.len() implies (
                #[trigger] front[i]).lease_key != (#[trigger] front[j]).lease_key by {
                    assert(s[i].lease_key != s[j].lease_key);
                }
            }
            assert forall|a: int, b: int| 0 <= a < b < out.len() implies (
            #[trigger] out[a]).lease_key != (#[trigger] out[b]).lease_key by {
                if b == rest.len() {
                    let i = choose|i: int| 0 <= i < front.len() && front[i] == rest[a];
                    assert(s[i].lease_key != s[s.len() - 1].lease_key);
                }
            }
        }
    }
}

/// Puts `lease` in the place of the entry with its key, or at the end.
pub fn upsert_lease(leases: &mut Vec<Lease>, lease: Lease)
    ensures
        views(final(leases)@) == upsert(views(old(leases)@), lease@),
{
    let found = find_lease(leases, &lease.lease_key);
    match found {
        Some(i) => {
            leases.set(i, lease);
            assert(views(leases@) =~= views(old(leases)@).update(i as int, lease@));
        },
        None => {
            leases.push(lease);
            assert(views(leases@) =~= views(old(leases)@).push(lease@));
        },
    }
}

/// Merges a scan into `known` and forgets what the scan did not return.
pub fn refresh_leases(known: &mut Vec<Lease>, source: &Vec<Lease>, scan_time: u64)
    requires
        distinct_keys(views(old(known)@)),
    ensures
        views(final(known)@) == refreshed(views(old(known)@), views(source@), scan_time),
        distinct_keys(views(final(known)@)),
{
    let ghost before = views(known@);
    let ghost scanned_all = views(source@);
    let mut i: usize = 0;
    while i < source.len()
        invariant
            i <= source.len(),
            scanned_all == views(source@),
            views(known@) == absorb(before, scanned_all.take(i as int), scan_time),
            distinct_keys(views(known@)),
        decreases source.len() - i,
    {
        let scanned = &source[i];
        let prior = find_lease(known, &scanned.lease_key);
        let renewal: u64 = match prior {
            Some(p) => if known[p].lease_counter == scanned.lease_counter {
                known[p].last_renewal_nanos
            } else {
                scan_time
            },
            None => if scanned.lease_owner.is_none() {
                0
            } else {
                scan_time
            },
        };
        let mut fresh = scanned.duplicate();
        fresh.last_renewal_nanos = renewal;
        proof {
            let merged = views(known@);
            assert(scanned_all.take(i + 1).drop_last() =~= scanned_all.take(i as int));
            assert(scanned_all.take(i + 1).last() == scanned@);
            assert(fresh@ == observed(lookup(merged, scanned@.lease_key), scanned@, scan_time));
            lemma_upsert(merged, fresh@);
        }
        upsert_lease(known, fresh);
        i += 1;
    }
    assert(scanned_all.take(source.len() as int) =~= scanned_all);
    let ghost merged = views(known@);
    let mut kept: Vec<Lease> = Vec::new();
    let mut j: usize = 0;
    while j < known.len()
        invariant
            j <= known.len(),
            merged == views(known@),
            scanned_all == views(source@),
            views(kept@) == retain_scanned(merged.take(j as int), scanned_all),
        decreases known.len() - j,
    {
        let found = find_lease(source, &known[j].lease_key);
        proof {
            assert(merged.take(j + 1).drop_last() =~= merged.take(j as int));
            assert(merged.take(j + 1).last() == known[j as int]@);
        }
        if found.is_some() {
            let copy = known[j].duplicate();
            let ghost prev = views(kept@);
            kept.push(copy);
            assert(views(kept@) =~= prev.push(copy@));
        }
        j += 1;
    }
    proof {
        assert(merged.take(known.len() as int) =~= merged);
        lemma_retain_scanned(merged, scanned_all);
    }
    *known = kept;
}

/// The local renewal time of a lease seen again is carried over while its
/// counter stands still, and is set to the time of the scan when the counter
/// has moved.
pub proof fn lemma_renewal_time(known: LeaseView, scanned: LeaseView, scan_time: u64)
    ensures
        known.lease_counter == scanned.lease_counter ==> observed(
            Some(known),
            scanned,
            scan_time,
        ).last_renewal_nanos == known.last_renewal_nanos,
        known.lease_counter != scanned.lease_counter ==> observed(
            Some(known),
            scanned,
            scan_time,
        ).last_renewal_nanos == scan_time,
        observed(Some(known), scanned, scan_time).lease_counter == scanned.lease_counter,
{
}

/// With one entry per key, an entry is found under its own key.
pub proof fn lemma_lookup_entry(s: Seq<LeaseView>, i: int)
    requires
        distinct_keys(s),
        0 <= i < s.len(),
    ensures
        lookup(s, s[i].lease_key) == Some(s[i]),
{
    lemma_position(s, s[i].lease_key);
    let p = position(s, s[i].lease_key);
    if p < i {
        assert(s[p].lease_key != s[i].lease_key);
    }
}

/// Merging a scan with one row per key times each scanned lease against what
/// was known of its key before the scan, and keeps what was known of every
/// other key.
pub proof fn lemma_absorb(s: Seq<LeaseView>, source: Seq<LeaseView>, scan_time: u64)
    requires
        distinct_keys(s),
        distinct_keys(source),
    ensures
        distinct_keys(absorb(s, source, scan_time)),
        forall|i: int|
            0 <= i < source.len() ==> lookup(
                absorb(s, source, scan_time),
                (#[trigger] source[i]).lease_key,
            ) == Some(observed(lookup(s, source[i].lease_key), source[i], scan_time)),
        forall|key: Seq<char>|
            !has_key(source, key) ==> #[trigger] lookup(absorb(s, source, scan_time), key)
                == lookup(s, key),
    decreases source.len(),
{
    if source.len() > 0 {
        let front = source.drop_last();
        let scanned = source.last();
        assert(distinct_keys(front)) by {
            assert forall|i: int, j: int| 0 <= i < j < front.len() implies (
            #[trigger] front[i]).lease_key != (#[trigger] front[j]).lease_key by {
                assert(source[i].lease_key != source[j].lease_key);
            }
        }
        lemma_absorb(s, front, scan_time);
        let merged = absorb(s, front, scan_time);
        let timed = observed(lookup(merged, scanned.lease_key), scanned, scan_time);
        lemma_upsert(merged, timed);
        assert(!has_key(front, scanned.lease_key)) by {
            lemma_position(front, scanned.lease_key);
            if has_key(front, scanned.lease_key) {
                let p = position(front, scanned.lease_key);
                assert(source[p].lease_key != source[source.len() - 1].lease_key);
            }
        }
        assert(lookup(merged, scanned.lease_key) == lookup(s, scanned.lease_key));
        assert forall|i: int| 0 <= i < source.len() implies lookup(
            absorb(s, source, scan_time),
            (#[trigger] source[i]).lease_key,
        ) == Some(observed(lookup(s, source[i].lease_key), source[i], scan_time)) by {
            if i < front.len() {
                assert(front[i] == source[i]);
                assert(source[i].lease_key != source[source.len() - 1].lease_key);
            }
        }
        assert forall|key: Seq<char>| !has_key(source, key) implies #[trigger] lookup(
            absorb(s, source, scan_time),
            key,
        ) == lookup(s, key) by {
            lemma_position(source, key);
            lemma_position(front, key);
            assert(key != scanned.lease_key);
            if has_key(front, key) {
                let p = position(front, key);
                assert(source[p].lease_key == key);
            }
        }
    }
}

/// Forgetting what a scan did not return keeps what is known of each
/// scanned key and nothing else.
pub proof fn lemma_retain_lookup(s: Seq<LeaseView>, source: Seq<LeaseView>, key: Seq<char>)
    requires
        distinct_keys(s),
    ensures
        lookup(retain_scanned(s, source), key) == if has_key(source, key) {
            lookup(s, key)
        } else {
            None
        },
    decreases s.len(),
{
    let kept = retain_scanned(s, source);
    lemma_retain_scanned(s, source);
    lemma_position(kept, key);
    lemma_position(s, key);
    if s.len() > 0 {
        let front = s.drop_last();
        let rest = retain_scanned(front, source);
        assert(distinct_keys(front)) by {
            assert forall|i: int, j: int| 0 <= i < j < front.len() implies (
            #[trigger] front[i]).lease_key != (#[trigger] front[j]).lease_key by {
                assert(s[i].lease_key != s[j].lease_key);
            }
        }
        lemma_retain_lookup(front, source, key);
        lemma_retain_scanned(front, source);
        lemma_position(rest, key);
        lemma_position(front, key);
        let last = s.last();
        if has_key(front, key) {
            let p = position(front, key);
            assert(s[p] == front[p]);
            assert(s[p].lease_key != s[s.len() - 1].lease_key);
            lemma_position_is(s, key, p);
            if has_key(source, key) {
                let q = position(rest, key);
                assert(kept[q] == rest[q]);
                lemma_position_is(kept, key, q);
            } else {
                assert forall|j: int| 0 <= j < kept.len() implies (#[trigger] kept[j]).lease_key
                    != key by {
                    assert(has_key(source, kept[j].lease_key));
                }
                lemma_position_is(kept, key, kept.len() as int);
            }
        } else {
            assert forall|j: int| 0 <= j < rest.len() implies (#[trigger] rest[j]).lease_key
                != key by {
                let i = choose|i: int| 0 <= i < front.len() && front[i] == rest[j];
                assert(front[i].lease_key != key);
            }
            if last.lease_key == key {
                lemma_position_is(s, key, s.len() - 1);
                if has_key(source, key) {
                    assert forall|j: int| 0 <= j < rest.len() implies (
                    #[trigger] kept[j]).lease_key != key by {
                        assert(kept[j] == rest[j]);
                    }
                    lemma_position_is(kept, key, rest.len() as int);
                } else {
                    lemma_position_is(kept, key, kept.len() as int);
                }
            } else {
                assert forall|j: int| 0 <= j < s.len() implies (#[trigger] s[j]).lease_key
                    != key by {
                    if j < front.len() {
                        assert(front[j] == s[j]);
                    }
                }
                lemma_position_is(s, key, s.len() as int);
                assert forall|j: int| 0 <= j < kept.len() implies (#[trigger] kept[j]).lease_key
                    != key by {
                    if j < rest.len() {
                        assert(kept[j] == rest[j]);
                    }
                }
                lemma_position_is(kept, key, kept.len() as int);
            }
        }
    }
}

/// After a scan with one row per key, a worker knows exactly the scanned
/// leases, each timed against what it knew of that key before: the renewal
/// time is carried over while the counter stands still and is the time of
/// the scan when the counter has moved.
pub proof fn lemma_refreshed(s: Seq<LeaseView>, source: Seq<LeaseView>, scan_time: u64)
    requires
        distinct_keys(s),
        distinct_keys(source),
    ensures
        distinct_keys(refreshed(s, source, scan_time)),
        forall|i: int|
            0 <= i < source.len() ==> lookup(
                refreshed(s, source, scan_time),
                (#[trigger] source[i]).lease_key,
            ) == Some(observed(lookup(s, source[i].lease_key), source[i], scan_time)),
        forall|key: Seq<char>|
            !has_key(source, key) ==> #[trigger] lookup(refreshed(s, source, scan_time), key)
                is None,
{
    lemma_absorb(s, source, scan_time);
    let merged = absorb(s, source, scan_time);
    lemma_retain_scanned(merged, source);
    assert forall|i: int| 0 <= i < source.len() implies lookup(
        refreshed(s, source, scan_time),
        (#[trigger] source[i]).lease_key,
    ) == Some(observed(lookup(s, source[i].lease_key), source[i], scan_time)) by {
        lemma_retain_lookup(merged, source, source[i].lease_key);
        lemma_lookup_entry(source, i);
    }
    assert forall|key: Seq<char>| !has_key(source, key) implies #[trigger] lookup(
        refreshed(s, source, scan_time),
        key,
    ) is None by {
        lemma_retain_lookup(merged, source, key);
    }
}

/// Whether `leases` holds one lease per key.
pub fn has_distinct_keys(leases: &Vec<Lease>) -> (distinct: bool)
    ensures
        distinct == distinct_keys(views(leases@)),
{
    let ghost s = views(leases@);
    let mut j: usize = 0;
    while j < leases.len()
        invariant
            j <= leases.len(),
            s == views(leases@),
            forall|a: int, b: int| 0 <= a < b < j ==> (#[trigger] s[a]).lease_key != (#[trigger] s[b]).lease_key,
        decreases leases.len() - j,
    {
        let mut i: usize = 0;
        while i < j
            invariant
                i <= j < leases.len(),
                s == views(leases@),
                forall|a: int| 0 <= a < i ==> (#[trigger] s[a]).lease_key != s[j as int].lease_key,
            decreases j - i,
        {
            if leases[i].lease_key == leases[j].lease_key {
                assert(s[i as int].lease_key == s[j as int].lease_key);
                return false;
            }
            i += 1;
        }
        j += 1;
    }
    true
}

} // verus!
