//! The balance a fleet of workers comes to rest in, stated over the number
//! of leases each worker holds.
use vstd::prelude::*;
use crate::counts::{available_slots, steal_count, target_count};

verus! {

/// The number of leases held in all.
pub open spec fn total(held: Seq<nat>) -> nat
    decreases held.len(),
{
    if held.len() == 0 {
        0
    } else {
        total(held.drop_last()) + held.last()
    }
}

/// The number of workers that hold at least one lease.
pub open spec fn holders(held: Seq<nat>) -> nat
    decreases held.len(),
{
    if held.len() == 0 {
        0
    } else {
        let last: nat = if held.last() > 0 {
            1
        } else {
            0
        };
        holders(held.drop_last()) + last
    }
}

/// The largest number of leases that one worker holds.
pub open spec fn most(held: Seq<nat>) -> nat
    decreases held.len(),
{
    if held.len() == 0 {
        0
    } else if held.last() > most(held.drop_last()) {
        held.last()
    } else {
        most(held.drop_last())
    }
}

/// The number of workers that worker `a` counts when it sets its target:
/// those that hold a lease, and itself.
pub open spec fn seen_by(held: Seq<nat>, a: int) -> nat {
    let me: nat = if held[a] == 0 {
        1
    } else {
        0
    };
    holders(held) + me
}

/// The target of worker `a`.
pub open spec fn target_of(held: Seq<nat>, a: int, max_allowed: nat) -> nat {
    target_count(total(held), seen_by(held, a), max_allowed)
}

/// Worker `a` steals nothing in its next pass.
pub open spec fn at_rest(held: Seq<nat>, a: int, max_allowed: nat, max_steals: nat) -> bool {
    steal_count(
        most(held),
        target_of(held, a, max_allowed),
        available_slots(target_of(held, a, max_allowed), held[a]),
        max_steals,
    ) == 0
}

/// No worker holds more than the largest holding, and none more than all.
proof fn lemma_most(held: Seq<nat>)
    ensures
        forall|i: int| 0 <= i < held.len() ==> #[trigger] held[i] <= most(held),
        forall|i: int| 0 <= i < held.len() ==> #[trigger] held[i] <= total(held),
        held.len() > 0 ==> exists|i: int| 0 <= i < held.len() && #[trigger] held[i] == most(held),
        holders(held) <= held.len(),
    decreases held.len(),
{
    if held.len() > 0 {
        let front = held.drop_last();
        lemma_most(front);
        assert forall|i: int| 0 <= i < held.len() implies #[trigger] held[i] <= most(held)
            && held[i] <= total(held) by {
            if i < front.len() {
                assert(front[i] == held[i]);
            }
        }
        if held.last() > most(front) || front.len() == 0 {
            assert(held[held.len() - 1] == most(held));
        } else {
            let i = choose|i: int| 0 <= i < front.len() && #[trigger] front[i] == most(front);
            assert(held[i] == most(held));
        }
    }
}

/// All leases fit into as many largest holdings as there are holders.
proof fn lemma_total_upper(held: Seq<nat>)
    ensures
        total(held) <= holders(held) * most(held),
    decreases held.len(),
{
    if held.len() > 0 {
        let front = held.drop_last();
        lemma_total_upper(front);
        let p = holders(front);
        let m0 = most(front);
        let m = most(held);
        assert(p * m0 <= p * m) by (nonlinear_arith)
            requires
                m0 <= m,
        ;
        if held.last() > 0 {
            assert((p + 1) * m == p * m + m) by (nonlinear_arith);
        }
    }
}

/// Where every worker holds at least `floor` leases, the leases held in all
/// exceed the floor of every worker by what the largest holding exceeds it.
proof fn lemma_total_lower(held: Seq<nat>, floor: nat)
    requires
        held.len() > 0,
        forall|i: int| 0 <= i < held.len() ==> #[trigger] held[i] >= floor,
    ensures
        total(held) + floor >= held.len() * floor + most(held),
    decreases held.len(),
{
    let front = held.drop_last();
    let n = held.len() as int;
    assert(held.last() >= floor) by {
        assert(held[n - 1] >= floor);
    }
    if front.len() == 0 {
        assert(total(front) == 0);
        assert(most(front) == 0);
        assert(n * floor == floor) by (nonlinear_arith)
            requires
                n == 1,
        ;
    } else {
        assert forall|i: int| 0 <= i < front.len() implies #[trigger] front[i] >= floor by {
            assert(front[i] == held[i]);
        }
        lemma_total_lower(front, floor);
        lemma_most(front);
        assert(most(front) >= floor) by {
            let i = choose|i: int| 0 <= i < front.len() && #[trigger] front[i] == most(front);
            assert(front[i] >= floor);
        }
        assert(n * floor == (n - 1) * floor + floor) by (nonlinear_arith);
    }
}

/// Where every worker holds a lease, every worker is a holder.
proof fn lemma_all_hold(held: Seq<nat>)
    requires
        forall|i: int| 0 <= i < held.len() ==> #[trigger] held[i] >= 1,
    ensures
        holders(held) == held.len(),
    decreases held.len(),
{
    if held.len() > 0 {
        let front = held.drop_last();
        assert forall|i: int| 0 <= i < front.len() implies #[trigger] front[i] >= 1 by {
            assert(front[i] == held[i]);
        }
        lemma_all_hold(front);
        assert(held[held.len() - 1] >= 1);
    }
}

/// An uncapped target is at least one, is no more than any bound under which
/// the leases fit, and gives room for all leases.
proof fn lemma_target(leases: nat, workers: nat, bound: nat)
    requires
        workers >= 1,
    ensures
        target_count(leases, workers, leases) >= 1,
        bound >= 1 && leases <= workers * bound ==> target_count(leases, workers, leases) <= bound,
        workers * target_count(leases, workers, leases) >= leases,
{
    let n = leases as int;
    let w = workers as int;
    let q = n / w;
    let r = n % w;
    assert(n == w * q + r && 0 <= r < w) by (nonlinear_arith)
        requires
            w >= 1,
            q == n / w,
            r == n % w,
    ;
    assert(q >= 0) by (nonlinear_arith)
        requires
            n >= 0,
            w >= 1,
            q == n / w,
    ;
    if workers < leases {
        assert(q >= 1) by (nonlinear_arith)
            requires
                n == w * q + r,
                r < w,
                w < n,
                w >= 1,
        ;
        assert(q <= n) by (nonlinear_arith)
            requires
                n == w * q + r,
                r >= 0,
                w >= 1,
                q >= 0,
        ;
        let extra: int = if r > 0 {
            1
        } else {
            0
        };
        assert(q + extra <= n) by (nonlinear_arith)
            requires
                n == w * q + r,
                0 <= r < w,
                w < n,
                w >= 1,
                q >= 1,
                extra == (if r > 0 {
                    1int
                } else {
                    0int
                }),
        ;
        assert(target_count(leases, workers, leases) == q + extra);
        assert(w * (q + extra) >= n) by (nonlinear_arith)
            requires
                n == w * q + r,
                0 <= r < w,
                extra == (if r > 0 {
                    1int
                } else {
                    0int
                }),
        ;
        if bound >= 1 && leases <= workers * bound {
            let b = bound as int;
            assert(q + extra <= b) by (nonlinear_arith)
                requires
                    n == w * q + r,
                    0 <= r < w,
                    n <= w * b,
                    w >= 1,
                    extra == (if r > 0 {
                        1int
                    } else {
                        0int
                    }),
            ;
        }
    } else {
        assert(w * 1 >= n) by (nonlinear_arith)
            requires
                w >= n,
        ;
    }
}

/// When the fleet has come to rest, with every lease held by a live worker
/// and no worker stealing in its next pass, the holdings of any two workers
/// differ by at most one. This is stated for a fleet whose workers may steal
/// at least one lease per pass and whose targets the limit of leases per
/// worker does not lower.
pub proof fn lemma_balanced(held: Seq<nat>, max_allowed: nat, max_steals: nat)
    requires
        max_steals >= 1,
        forall|a: int|
            0 <= a < held.len() ==> #[trigger] target_of(held, a, max_allowed) == target_of(
                held,
                a,
                total(held),
            ),
        forall|a: int| 0 <= a < held.len() ==> #[trigger] at_rest(held, a, max_allowed, max_steals),
    ensures
        forall|a: int, b: int|
            0 <= a < held.len() && 0 <= b < held.len() ==> #[trigger] held[a] <= #[trigger] held[b]
                + 1,
{
    let leases = total(held);
    let peak = most(held);
    lemma_most(held);
    lemma_total_upper(held);
    if held.len() == 0 {
    } else if exists|z: int| 0 <= z < held.len() && #[trigger] held[z] == 0 {
        let z = choose|z: int| 0 <= z < held.len() && #[trigger] held[z] == 0;
        if leases > 0 {
            let seen = holders(held) + 1;
            assert(peak >= 1 && holders(held) >= 1) by (nonlinear_arith)
                requires
                    leases <= holders(held) * peak,
                    leases > 0,
            ;
            assert(leases <= seen * peak) by (nonlinear_arith)
                requires
                    leases <= holders(held) * peak,
                    seen == holders(held) + 1,
            ;
            lemma_target(leases, seen as nat, peak);
            assert(seen_by(held, z) == seen);
            assert(at_rest(held, z, max_allowed, max_steals));
            assert(target_of(held, z, max_allowed) == target_of(held, z, total(held)));
            assert(peak == 1);
        }
    } else {
        assert forall|i: int| 0 <= i < held.len() implies #[trigger] held[i] >= 1 by {
            assert(held[i] != 0);
        }
        lemma_all_hold(held);
        let workers = held.len() as nat;
        lemma_target(leases, workers, peak);
        let target = target_count(leases, workers, leases);
        assert(peak >= 1) by {
            assert(held[0] >= 1);
        }
        assert forall|a: int| 0 <= a < held.len() implies target_of(held, a, max_allowed)
            == target by {
            assert(seen_by(held, a) == workers);
            assert(target_of(held, a, max_allowed) == target_of(held, a, total(held)));
        }
        if peak > target {
            if forall|i: int| 0 <= i < held.len() ==> #[trigger] held[i] >= target {
                lemma_total_lower(held, target);
            } else {
                let a = choose|a: int| 0 <= a < held.len() && !(#[trigger] held[a] >= target);
                assert(at_rest(held, a, max_allowed, max_steals));
            }
            assert(false);
        }
        assert forall|a: int, b: int| 0 <= a < held.len() && 0 <= b < held.len() implies #[trigger] held[a]
            <= #[trigger] held[b] + 1 by {
            assert(at_rest(held, b, max_allowed, max_steals));
            assert(target_of(held, b, max_allowed) == target);
        }
    }
}

} // verus!
