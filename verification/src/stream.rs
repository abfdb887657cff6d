//! A whole result stream through the reassembler.
//!
//! The functions here say what a fresh reassembler makes of a stream of
//! arrivals taken as a whole, and prove the two facts the output order rests
//! on: whatever arrives, the ids that leave are 0, 1, 2, .. without a gap;
//! and when the arrivals are the results of one run in any order, all of them
//! leave, in id order.

use crate::grep_result::GrepResult;
use crate::reassembler::{
    id_span, lemma_ready_is_consecutive, settled, Phase, Reassembler, ReassemblerState,
};
use vstd::prelude::*;

verus! {

/// The state of a reassembler that started fresh and took in `arrivals`, one
/// after the other.
pub open spec fn state_after<P>(arrivals: Seq<GrepResult<P>>) -> ReassemblerState<P>
    decreases arrivals.len(),
{
    if arrivals.len() == 0 {
        ReassemblerState::initial()
    } else {
        state_after(arrivals.drop_last()).after(arrivals.last())
    }
}

/// Everything such a reassembler has released, in the order of release.
pub open spec fn emitted_by<P>(arrivals: Seq<GrepResult<P>>) -> Seq<GrepResult<P>>
    decreases arrivals.len(),
{
    if arrivals.len() == 0 {
        Seq::empty()
    } else {
        emitted_by(arrivals.drop_last()) + state_after(arrivals.drop_last()).released(
            arrivals.last(),
        )
    }
}

/// `order` lists each of `0, .., n - 1` exactly once.
pub open spec fn is_permutation(order: Seq<int>, n: nat) -> bool {
    &&& order.len() == n
    &&& forall|i: int| 0 <= i < n ==> 0 <= #[trigger] order[i] < n
    &&& forall|i: int, j: int| 0 <= i < j < n ==> #[trigger] order[i] != #[trigger] order[j]
    &&& forall|k: int| 0 <= k < n ==> #[trigger] occurs_before(order, n as int, k)
}

/// `k` is among the first `m` entries of `order`.
pub open spec fn occurs_before(order: Seq<int>, m: int, k: int) -> bool {
    exists|i: int| 0 <= i < m && #[trigger] order[i] == k
}

/// `items` taken in the order `order`: position `i` holds `items[order[i]]`.
pub open spec fn reordered<T>(items: Seq<T>, order: Seq<int>) -> Seq<T> {
    Seq::new(order.len(), |i: int| items[order[i]])
}

/// Results numbered as a sequencer numbers them: the result at position `k`
/// carries the id `k`.
pub open spec fn numbered<P>(results: Seq<GrepResult<P>>) -> bool {
    &&& results.len() <= u64::MAX
    &&& forall|k: int| 0 <= k < results.len() ==> (#[trigger] results[k]).sequence_id == k
}

/// Whatever arrives, a reassembler stays well formed and settled, its cursor
/// counts what it has released, and the result released at position `k`
/// carries the id `k`: no id leaves before all smaller ids have left, and
/// none leaves twice.
pub proof fn lemma_emitted_in_sequence<P>(arrivals: Seq<GrepResult<P>>)
    ensures
        state_after(arrivals).wf(),
        state_after(arrivals).is_settled(),
        state_after(arrivals).phase == Phase::Running,
        state_after(arrivals).next_expected == emitted_by(arrivals).len(),
        emitted_by(arrivals).len() <= u64::MAX,
        forall|k: int|
            0 <= k < emitted_by(arrivals).len() ==> (#[trigger] emitted_by(
                arrivals,
            )[k]).sequence_id == k,
    decreases arrivals.len(),
{
    if arrivals.len() > 0 {
        let before = arrivals.drop_last();
        let result = arrivals.last();
        lemma_emitted_in_sequence(before);
        let state = state_after(before);
        let stored = state.stored(result);
        let run = state.released(result);
        let next = state.next_expected;
        lemma_ready_is_consecutive(stored, next);
        let out = emitted_by(arrivals);
        assert(out == emitted_by(before) + run);
        assert forall|k: int| 0 <= k < out.len() implies (#[trigger] out[k]).sequence_id == k by {
            if k >= next {
                let id = k as u64;
                assert(stored.contains_key(id));
                assert(run[id - next] == stored[id]);
                assert(out[k] == run[k - next]);
            } else {
                assert(out[k] == emitted_by(before)[k]);
            }
        }
    }
}

/// What has arrived and was not released is still in the buffer: after the
/// first `m` arrivals of a numbered run taken in the order `order`, the
/// output is the run up to the cursor, and the buffer holds exactly the
/// arrived results from the cursor upwards.
proof fn lemma_prefix_state<P>(results: Seq<GrepResult<P>>, order: Seq<int>, m: int)
    requires
        numbered(results),
        is_permutation(order, results.len()),
        0 <= m <= results.len(),
    ensures
        state_after(reordered(results, order).take(m)).next_expected <= results.len(),
        emitted_by(reordered(results, order).take(m)) == results.take(
            state_after(reordered(results, order).take(m)).next_expected as int,
        ),
        forall|id: u64| #[trigger]
            state_after(reordered(results, order).take(m)).buffer.contains_key(id) <==> (
            state_after(reordered(results, order).take(m)).next_expected <= id && occurs_before(
                order,
                m,
                id as int,
            )),
        forall|id: u64| #[trigger]
            state_after(reordered(results, order).take(m)).buffer.contains_key(id)
                ==> id < results.len() && state_after(
                reordered(results, order).take(m),
            ).buffer[id] == results[id as int],
        forall|k: int|
            0 <= k < state_after(reordered(results, order).take(m)).next_expected
                ==> #[trigger] occurs_before(order, m, k),
    decreases m,
{
    let arrivals = reordered(results, order);
    let n = results.len();
    if m == 0 {
        assert(arrivals.take(0) =~= Seq::empty());
        assert(results.take(0) =~= Seq::empty());
    } else {
        lemma_prefix_state(results, order, m - 1);
        let before = arrivals.take(m - 1);
        let now = arrivals.take(m);
        assert(now.drop_last() =~= before);
        let x = order[m - 1];
        let result = results[x];
        assert(now.last() == result);
        assert(result.sequence_id == x);
        let state = state_after(before);
        let next = state.next_expected;
        let stored = state.stored(result);
        let run = state.released(result);
        lemma_emitted_in_sequence(before);
        lemma_ready_is_consecutive(stored, next);
        // the id that arrives now has not been released yet
        assert(x >= next) by {
            if x < next {
                assert(occurs_before(order, m - 1, x));
                let i = choose|i: int| 0 <= i < m - 1 && #[trigger] order[i] == x;
                assert(order[i] != order[m - 1]);
            }
        }
        assert forall|id: u64| #[trigger] stored.contains_key(id) implies id < n && stored[id]
            == results[id as int] by {
            if id != x as u64 {
                assert(state.buffer.contains_key(id));
            }
        }
        let after = state_after(now);
        let next2 = after.next_expected;
        assert(after == state.after(result));
        assert(next2 == next + run.len());
        // the run stays inside the numbered results
        assert(next2 <= n) by {
            if run.len() > 0 {
                let top = (next2 - 1) as u64;
                assert(stored.contains_key(top));
            }
        }
        assert(emitted_by(now) =~= results.take(next2 as int)) by {
            assert(emitted_by(now) == emitted_by(before) + run);
            assert forall|k: int| next <= k < next2 implies run[k - next] == results[k] by {
                let id = k as u64;
                assert(stored.contains_key(id));
                assert(run[id - next] == stored[id]);
            }
        }
        assert forall|id: u64| #[trigger]
            after.buffer.contains_key(id) <==> (next2 <= id && occurs_before(
                order,
                m,
                id as int,
            )) by {
            if after.buffer.contains_key(id) {
                assert(stored.contains_key(id) && !id_span(next, next2).contains(id));
                if id == x as u64 {
                    assert(order[m - 1] == id as int);
                } else {
                    assert(state.buffer.contains_key(id));
                    assert(occurs_before(order, m - 1, id as int));
                    let i = choose|i: int| 0 <= i < m - 1 && #[trigger] order[i] == id as int;
                    assert(0 <= i < m && order[i] == id as int);
                }
            }
            if next2 <= id && occurs_before(order, m, id as int) {
                let i = choose|i: int| 0 <= i < m && #[trigger] order[i] == id as int;
                if i == m - 1 {
                    assert(id == x as u64);
                    assert(stored.contains_key(id));
                } else {
                    assert(occurs_before(order, m - 1, id as int));
                    assert(state.buffer.contains_key(id));
                }
                assert(!id_span(next, next2).contains(id));
            }
        }
        assert forall|id: u64| #[trigger] after.buffer.contains_key(id) implies id < n
            && after.buffer[id] == results[id as int] by {
            assert(stored.contains_key(id));
        }
        assert forall|k: int| 0 <= k < next2 implies #[trigger] occurs_before(order, m, k) by {
            if k < next {
                assert(occurs_before(order, m - 1, k));
                let i = choose|i: int| 0 <= i < m - 1 && #[trigger] order[i] == k;
                assert(0 <= i < m && order[i] == k);
            } else {
                let id = k as u64;
                assert(stored.contains_key(id));
                if id == x as u64 {
                    assert(order[m - 1] == k);
                } else {
                    assert(state.buffer.contains_key(id));
                    assert(occurs_before(order, m - 1, id as int));
                    let i = choose|i: int| 0 <= i < m - 1 && #[trigger] order[i] == id as int;
                    assert(0 <= i < m && order[i] == k);
                }
            }
        }
    }
}

/// Reassembly restores the order of completion. Let `results` be the results
/// of one run, numbered 0, 1, 2, .. in the order in which they were
/// completed, and let them arrive in any order at all. Then every one of
/// them is released, the result with id `k` as the `k`-th, and nothing is
/// left in the buffer once the last has arrived.
pub proof fn lemma_reassembly_restores_order<P>(results: Seq<GrepResult<P>>, order: Seq<int>)
    requires
        numbered(results),
        is_permutation(order, results.len()),
    ensures
        emitted_by(reordered(results, order)) == results,
        state_after(reordered(results, order)).next_expected == results.len(),
        state_after(reordered(results, order)).buffer == Map::<u64, GrepResult<P>>::empty(),
{
    let n = results.len();
    let arrivals = reordered(results, order);
    lemma_prefix_state(results, order, n as int);
    assert(arrivals.take(n as int) =~= arrivals);
    lemma_emitted_in_sequence(arrivals);
    let state = state_after(arrivals);
    let next = state.next_expected;
    if next < n {
        assert(occurs_before(order, n as int, next as int));
        assert(state.buffer.contains_key(next as u64));
        assert(!settled(state.buffer, next));
    }
    assert(results.take(n as int) =~= results);
    assert(state.buffer =~= Map::<u64, GrepResult<P>>::empty()) by {
        assert forall|id: u64| !state.buffer.contains_key(id) by {
            if state.buffer.contains_key(id) {
                assert(id < n && n <= id);
            }
        }
    }
}

/// Runs a whole stream through a fresh reassembler: takes in the arrivals
/// one by one, closes the stream, drains, and hands back everything that was
/// released, in the order of release, together with the reassembler in its
/// final phase.
pub fn reassemble<P>(arrivals: Vec<GrepResult<P>>) -> (run: (Vec<GrepResult<P>>, Reassembler<P>))
    ensures
        run.0@ == emitted_by(arrivals@),
        run.1@ == (ReassemblerState { phase: Phase::Done, ..state_after(arrivals@) }),
{
    let ghost all = arrivals@;
    let mut reassembler: Reassembler<P> = Reassembler::new();
    let mut emitted: Vec<GrepResult<P>> = Vec::new();
    assert(all.take(0) =~= Seq::empty());
    for result in it: arrivals.into_iter()
        invariant
            it.seq() == all,
            reassembler@ == state_after(all.take(it.index() as int)),
            reassembler@.wf(),
            emitted@ == emitted_by(all.take(it.index() as int)),
    {
        proof {
            let m = it.index() as int;
            assert(all.take(m + 1).drop_last() =~= all.take(m));
            assert(all.take(m + 1).last() == result);
            lemma_emitted_in_sequence(all.take(m));
        }
        let mut released = reassembler.accept(result);
        emitted.append(&mut released);
    }
    proof {
        assert(all.take(all.len() as int) =~= all);
        lemma_emitted_in_sequence(all);
    }
    reassembler.close();
    let mut flushed = reassembler.drain();
    emitted.append(&mut flushed);
    (emitted, reassembler)
}

} // verus!
