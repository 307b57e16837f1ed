//! Deterministic event scheduler.
//!
//! A scenario's timeline is replayed in a stable total order: primary key
//! the event's logical time, ascending; secondary key the event's
//! declaration index, ascending. `schedule` takes the timeline's times (by declaration
//! order) and returns the replay order as a permutation of the declaration
//! indices. The contract pins the order completely: it is sorted, ties keep
//! declaration order, and every event is delivered exactly once.

use vstd::prelude::*;

verus! {

/// Strict replay order between declaration indices `a` and `b`: earlier
/// logical time first, declaration order breaking ties.
pub open spec fn sched_before(times: Seq<i64>, a: int, b: int) -> bool {
    times[a] < times[b] || (times[a] == times[b] && a < b)
}

/// What it means for `order` to be the replay order of a timeline whose
/// event times, in declaration order, are `times`:
/// every declaration index appears, nothing else appears, and consecutive
/// entries are strictly ordered by (time, declaration index).
pub open spec fn is_replay_order(times: Seq<i64>, order: Seq<usize>) -> bool {
    &&& order.len() == times.len()
    &&& forall|i: int| 0 <= i < order.len() ==> (#[trigger] order[i]) < times.len()
    &&& forall|i: int, j: int|
        0 <= i < j < order.len() ==> sched_before(times, #[trigger] order[i] as int, #[trigger] order[j] as int)
    &&& forall|d: int| 0 <= d < times.len() ==> #[trigger] order.contains(d as usize)
}

/// Replay order for the given event times: a stable sort by logical time.
pub fn schedule(times: &Vec<i64>) -> (order: Vec<usize>)
    ensures
        is_replay_order(times@, order@),
{
    let n = times.len();
    let mut order: Vec<usize> = Vec::new();
    for k in 0..n
        invariant
            n == times@.len(),
            forall|i: int| 0 <= i < order@.len() ==> (#[trigger] order@[i]) < k,
            forall|i: int, j: int|
                0 <= i < j < order@.len() ==> sched_before(
                    times@,
                    #[trigger] order@[i] as int,
                    #[trigger] order@[j] as int,
                ),
            forall|d: int| 0 <= d < k ==> #[trigger] order@.contains(d as usize),
            order@.len() == k,
    {
        // Find the insertion point: everything at or after `pos` was declared
        // earlier but carries a strictly later time.
        let mut pos = order.len();
        while pos > 0 && times[order[pos - 1]] > times[k]
            invariant
                n == times@.len(),
                k < n,
                pos <= order@.len(),
                order@.len() == k,
                forall|i: int| 0 <= i < order@.len() ==> (#[trigger] order@[i]) < k,
                forall|i: int, j: int|
                    0 <= i < j < order@.len() ==> sched_before(
                        times@,
                        #[trigger] order@[i] as int,
                        #[trigger] order@[j] as int,
                    ),
                forall|i: int|
                    pos <= i < order@.len() ==> times@[#[trigger] order@[i] as int] > times@[k as int],
            decreases pos,
        {
            pos = pos - 1;
        }
        let ghost prev = order@;
        order.insert(pos, k);
        proof {
            prev.insert_ensures(pos as int, k);
            assert forall|i: int, j: int| 0 <= i < j < order@.len() implies sched_before(
                times@,
                #[trigger] order@[i] as int,
                #[trigger] order@[j] as int,
            ) by {
                let p = pos as int;
                if i < p && j == p {
                    // prev[p - 1] has time <= times[k]; everything before it is
                    // ordered below it, so its time is no larger either.
                    assert(order@[i] == prev[i]);
                } else if i == p && j > p {
                    assert(order@[j] == prev[j - 1]);
                } else if i < p && j > p {
                    assert(order@[i] == prev[i] && order@[j] == prev[j - 1]);
                } else if i < p && j < p {
                    assert(order@[i] == prev[i] && order@[j] == prev[j]);
                } else if i > p && j > p {
                    assert(order@[i] == prev[i - 1] && order@[j] == prev[j - 1]);
                }
            }
            assert forall|d: int| 0 <= d < k + 1 implies #[trigger] order@.contains(d as usize) by {
                if d == k {
                    assert(order@[pos as int] == k as usize);
                } else {
                    assert(prev.contains(d as usize));
                    let p = choose|p: int| 0 <= p < prev.len() && prev[p] == d as usize;
                    assert(0 <= p < prev.len() && prev[p] == d as usize);
                    if p < pos as int {
                        assert(order@[p] == d as usize);
                    } else {
                        assert(order@[p + 1] == d as usize);
                    }
                }
            }
        }
    }
    order
}

/// The replay order is unique: any two orders that satisfy
/// `is_replay_order` for the same times agree everywhere. Together with
/// `schedule`'s postcondition this says the scheduler is deterministic, and
/// that equal-time events can only appear in declaration order.
pub proof fn lemma_replay_order_unique(times: Seq<i64>, o1: Seq<usize>, o2: Seq<usize>)
    requires
        is_replay_order(times, o1),
        is_replay_order(times, o2),
    ensures
        o1 == o2,
{
    lemma_replay_order_agree(times, o1, o2, o1.len() as int);
    assert(o1 =~= o2);
}

proof fn lemma_replay_order_agree(times: Seq<i64>, o1: Seq<usize>, o2: Seq<usize>, upto: int)
    requires
        is_replay_order(times, o1),
        is_replay_order(times, o2),
        0 <= upto <= o1.len(),
    ensures
        forall|i: int| 0 <= i < upto ==> o1[i] == o2[i],
    decreases upto,
{
    if upto > 0 {
        let i = upto - 1;
        lemma_replay_order_agree(times, o1, o2, i);
        if o1[i] != o2[i] {
            // o1[i] occurs somewhere in o2, and o2[i] somewhere in o1.
            assert(o1[i] < times.len() && o2[i] < times.len());
            assert(o2.contains((o1[i] as int) as usize));
            assert(o1.contains((o2[i] as int) as usize));
            let p = choose|p: int| 0 <= p < o2.len() && o2[p] == o1[i];
            let q = choose|q: int| 0 <= q < o1.len() && o1[q] == o2[i];
            assert(0 <= p < o2.len() && o2[p] == o1[i]);
            assert(0 <= q < o1.len() && o1[q] == o2[i]);
            // Neither occurrence can precede position i: the prefixes agree,
            // and a replay order has no repeated index.
            if p < i {
                assert(o2[p] == o1[p]);
                assert(sched_before(times, o1[p] as int, o1[i] as int));
            } else if q < i {
                assert(o1[q] == o2[q]);
                assert(sched_before(times, o2[q] as int, o2[i] as int));
            } else {
                assert(sched_before(times, o2[i] as int, o2[p] as int));
                assert(sched_before(times, o1[i] as int, o1[q] as int));
            }
        }
    }
}


/// A stable permutation of declaration positions: a bijection on the
/// positions that keeps equal-time entries in their relative order.
pub open spec fn is_stable_permutation(times: Seq<i64>, perm: Seq<usize>) -> bool {
    &&& perm.len() == times.len()
    &&& forall|i: int| 0 <= i < perm.len() ==> (#[trigger] perm[i]) < times.len()
    &&& forall|i: int, j: int|
        0 <= i < j < perm.len() ==> (#[trigger] perm[i]) != (#[trigger] perm[j])
    &&& forall|d: int| 0 <= d < times.len() ==> #[trigger] perm.contains(d as usize)
    &&& forall|i: int, j: int|
        0 <= i < j < perm.len() && times[(#[trigger] perm[i]) as int] == times[(
        #[trigger] perm[j]) as int] ==> perm[i] < perm[j]
}

/// The event times after redeclaring the timeline in the order `perm`.
pub open spec fn permuted_times(times: Seq<i64>, perm: Seq<usize>) -> Seq<i64> {
    Seq::new(perm.len(), |i: int| times[perm[i] as int])
}

/// Redeclaring a timeline by a stable permutation does not change the
/// replay order of the events themselves: composing a replay order of the
/// permuted timeline with the permutation yields a replay order of the
/// original timeline — the unique one, by `lemma_replay_order_unique`.
pub proof fn lemma_replay_order_permuted(times: Seq<i64>, perm: Seq<usize>, o2: Seq<usize>)
    requires
        times.len() <= usize::MAX,
        is_stable_permutation(times, perm),
        is_replay_order(permuted_times(times, perm), o2),
    ensures
        is_replay_order(times, Seq::new(o2.len(), |k: int| perm[o2[k] as int])),
{
    let times2 = permuted_times(times, perm);
    let mapped = Seq::new(o2.len(), |k: int| perm[o2[k] as int]);
    assert(mapped.len() == times.len());
    assert forall|k: int| 0 <= k < mapped.len() implies (#[trigger] mapped[k]) < times.len() by {
        assert(o2[k] < times2.len());
        assert(perm[o2[k] as int] < times.len());
    }
    assert forall|i: int, j: int| 0 <= i < j < mapped.len() implies sched_before(
        times,
        #[trigger] mapped[i] as int,
        #[trigger] mapped[j] as int,
    ) by {
        let a = o2[i] as int;
        let b = o2[j] as int;
        assert(sched_before(times2, a, b));
        assert(times2[a] == times[perm[a] as int]);
        assert(times2[b] == times[perm[b] as int]);
        if times2[a] == times2[b] {
            // Equal times: the replay order keeps a before b, and the
            // stable permutation keeps their declaration order too.
            assert(a < b);
            assert(perm[a] < perm[b]);
        }
    }
    assert forall|d: int| 0 <= d < times.len() implies #[trigger] mapped.contains(d as usize) by {
        assert(perm.contains(d as usize));
        let i = choose|i: int| 0 <= i < perm.len() && perm[i] == d as usize;
        assert(0 <= i < perm.len() && perm[i] == d as usize);
        assert(0 <= i < times2.len());
        assert(o2.contains((i as int) as usize));
        let k = choose|k: int| 0 <= k < o2.len() && o2[k] == (i as int) as usize;
        assert(0 <= k < o2.len() && o2[k] == (i as int) as usize);
        assert(mapped[k] == perm[o2[k] as int]);
        assert(o2[k] as int == i);
        assert(mapped[k] == d as usize);
    }
}

} // verus!
