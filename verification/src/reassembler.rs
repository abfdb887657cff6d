//! The reassembler: the single consumer that puts results back in order.
//!
//! Results arrive in whatever order the workers send them. Each is stored
//! under its sequence id; whenever the id that is due next is in the buffer,
//! it is released, and so is every id that follows it without a gap. A
//! result is therefore never released before all the results with smaller
//! ids.

use crate::grep_result::GrepResult;
use std::collections::BTreeMap;
use vstd::prelude::*;

verus! {

/// Where a reassembler stands in its life.
#[derive(Clone, Copy, Debug, PartialEq, Eq, Structural)]
pub enum Phase {
    /// The result stream is open; the next result is awaited.
    Running,
    /// The result stream was closed; what can still be released is flushed.
    Draining,
    /// Terminal: the output is complete.
    Done,
}

/// The items that a buffer releases when its cursor stands at `next`: the one
/// stored under `next`, the one under `next + 1`, and so on up to the first
/// id under which nothing is stored. The cursor never passes `u64::MAX`.
pub open spec fn ready<T>(buffer: Map<u64, T>, next: nat) -> Seq<T>
    decreases u64::MAX - next,
{
    if next < u64::MAX && buffer.contains_key(next as u64) {
        seq![buffer[next as u64]] + ready(buffer, next + 1)
    } else {
        Seq::empty()
    }
}

/// The ids `from, from + 1, .., to - 1`.
pub open spec fn id_span(from: nat, to: nat) -> Set<u64> {
    Set::new(|id: u64| from <= id < to)
}

/// A cursor over a buffer is settled when nothing is ready to be released.
pub open spec fn settled<T>(buffer: Map<u64, T>, next: nat) -> bool {
    !(next < u64::MAX && buffer.contains_key(next as u64))
}

/// The state of a reassembler: what it holds back, which id it releases next
/// (which is also the number of results it has released), and its phase.
pub struct ReassemblerState<P> {
    pub buffer: Map<u64, GrepResult<P>>,
    pub next_expected: nat,
    pub phase: Phase,
}

impl<P> ReassemblerState<P> {
    /// The state of a reassembler that has seen nothing.
    pub open spec fn initial() -> Self {
        ReassemblerState { buffer: Map::empty(), next_expected: 0, phase: Phase::Running }
    }

    /// The buffer once `result` has been stored in it.
    pub open spec fn stored(self, result: GrepResult<P>) -> Map<u64, GrepResult<P>> {
        self.buffer.insert(result.sequence_id, result)
    }

    /// The results released when `result` arrives.
    pub open spec fn released(self, result: GrepResult<P>) -> Seq<GrepResult<P>> {
        ready(self.stored(result), self.next_expected)
    }

    /// The state that follows the arrival of `result`.
    pub open spec fn after(self, result: GrepResult<P>) -> Self {
        let next = self.next_expected + self.released(result).len();
        ReassemblerState {
            buffer: self.stored(result).remove_keys(id_span(self.next_expected, next)),
            next_expected: next,
            phase: self.phase,
        }
    }

    /// Well-formedness: every result in the buffer is stored under its own
    /// sequence id. It holds of the initial state and is kept by every step.
    pub open spec fn wf(self) -> bool {
        forall|id: u64| #[trigger]
            self.buffer.contains_key(id) ==> self.buffer[id].sequence_id == id
    }

    /// Nothing in the buffer is due.
    pub open spec fn is_settled(self) -> bool {
        settled(self.buffer, self.next_expected)
    }
}

/// Two buffers hold the same items under every id from `next` upwards.
pub open spec fn same_from<T>(a: Map<u64, T>, b: Map<u64, T>, next: nat) -> bool {
    forall|id: u64|
        next <= id ==> (#[trigger] a.contains_key(id) <==> b.contains_key(id)) && (a.contains_key(
            id,
        ) ==> a[id] == b[id])
}

/// What is ready depends only on what is stored at the cursor and above it.
pub proof fn lemma_ready_above_cursor<T>(a: Map<u64, T>, b: Map<u64, T>, next: nat)
    requires
        same_from(a, b, next),
    ensures
        ready(a, next) == ready(b, next),
    decreases u64::MAX - next,
{
    if next < u64::MAX {
        assert(a.contains_key(next as u64) <==> b.contains_key(next as u64));
        if a.contains_key(next as u64) {
            assert(same_from(a, b, next + 1)) by {
                assert forall|id: u64| next + 1 <= id implies (#[trigger] a.contains_key(id)
                    <==> b.contains_key(id)) && (a.contains_key(id) ==> a[id] == b[id]) by {
                    assert(next <= id);
                }
            }
            lemma_ready_above_cursor(a, b, next + 1);
        }
    }
}

/// What is released holds consecutive ids: the run `ready(buffer, next)`
/// holds, in this order, the items stored under `next`, `next + 1`, and so
/// on, it ends below `u64::MAX`, and the first id past it is not due.
pub proof fn lemma_ready_is_consecutive<T>(buffer: Map<u64, T>, next: nat)
    ensures
        ready(buffer, next).len() > 0 ==> next + ready(buffer, next).len() <= u64::MAX,
        forall|id: u64|
            next <= id < next + ready(buffer, next).len() ==> #[trigger] buffer.contains_key(id)
                && ready(buffer, next)[id - next] == buffer[id],
        settled(buffer, next + ready(buffer, next).len()),
    decreases u64::MAX - next,
{
    let run = ready(buffer, next);
    if next < u64::MAX && buffer.contains_key(next as u64) {
        lemma_ready_is_consecutive(buffer, next + 1);
        let tail = ready(buffer, next + 1);
        assert(run == seq![buffer[next as u64]] + tail);
        assert forall|id: u64| next <= id < next + run.len() implies #[trigger] buffer.contains_key(
            id,
        ) && run[id - next] == buffer[id] by {
            if id > next {
                assert(run[id - next] == tail[id - (next + 1)]);
            }
        }
    }
}

/// A settled cursor releases nothing.
pub proof fn lemma_settled_releases_nothing<T>(buffer: Map<u64, T>, next: nat)
    requires
        settled(buffer, next),
    ensures
        ready(buffer, next) == Seq::<T>::empty(),
{
}

/// The reorder buffer and its cursor.
pub struct Reassembler<P> {
    buffer: BTreeMap<u64, GrepResult<P>>,
    next_expected: u64,
    phase: Phase,
}

impl<P> View for Reassembler<P> {
    type V = ReassemblerState<P>;

    closed spec fn view(&self) -> ReassemblerState<P> {
        ReassemblerState {
            buffer: self.buffer@,
            next_expected: self.next_expected as nat,
            phase: self.phase,
        }
    }
}

impl<P> Reassembler<P> {
    /// A reassembler that awaits its first result: empty buffer, cursor at 0.
    pub fn new() -> (r: Self)
        ensures
            r@ == ReassemblerState::<P>::initial(),
            r@.wf(),
    {
        Reassembler { buffer: BTreeMap::new(), next_expected: 0, phase: Phase::Running }
    }

    /// The phase the reassembler is in.
    pub fn phase(&self) -> (phase: Phase)
        ensures
            phase == self@.phase,
    {
        self.phase
    }

    /// The id that will be released next; also the number of results released
    /// so far.
    pub fn next_expected_id(&self) -> (next: u64)
        ensures
            next == self@.next_expected,
    {
        self.next_expected
    }

    /// The number of results held back.
    pub fn pending(&self) -> (n: usize)
        ensures
            n == self@.buffer.len(),
    {
        self.buffer.len()
    }

    /// Releases, in id order, everything that is due, and moves the cursor
    /// past it.
    fn flush(&mut self) -> (released: Vec<GrepResult<P>>)
        ensures
            released@ == ready(old(self)@.buffer, old(self)@.next_expected),
            final(self)@.next_expected == old(self)@.next_expected + released@.len(),
            final(self)@.buffer == old(self)@.buffer.remove_keys(
                id_span(old(self)@.next_expected, final(self)@.next_expected),
            ),
            final(self)@.phase == old(self)@.phase,
            final(self)@.is_settled(),
    {
        let ghost start = self@;
        let mut released: Vec<GrepResult<P>> = Vec::new();
        assert(start.buffer.remove_keys(id_span(start.next_expected, start.next_expected))
            == start.buffer);
        while self.next_expected < u64::MAX
            invariant
                self@.phase == start.phase,
                start.next_expected <= self@.next_expected <= u64::MAX,
                self@.next_expected == start.next_expected + released@.len(),
                self@.buffer == start.buffer.remove_keys(
                    id_span(start.next_expected, self@.next_expected),
                ),
                released@ + ready(self@.buffer, self@.next_expected) == ready(
                    start.buffer,
                    start.next_expected,
                ),
            ensures
                self@.is_settled(),
            decreases u64::MAX - self.next_expected,
        {
            let ghost before = self@;
            let due = self.next_expected;
            match self.buffer.remove(&due) {
                Some(result) => {
                    released.push(result);
                    self.next_expected = due + 1;
                    proof {
                        assert(same_from(before.buffer, self@.buffer, due as nat + 1));
                        lemma_ready_above_cursor(before.buffer, self@.buffer, due as nat + 1);
                        assert(released@ + ready(self@.buffer, self@.next_expected)
                            == released@.drop_last() + ready(before.buffer, due as nat));
                        assert(self@.buffer == start.buffer.remove_keys(
                            id_span(start.next_expected, self@.next_expected),
                        ));
                    }
                },
                None => {
                    break ;
                },
            }
        }
        proof {
            lemma_settled_releases_nothing(self@.buffer, self@.next_expected);
        }
        released
    }

    /// Takes in one result and hands back, in id order, the results that this
    /// arrival releases: none while an earlier id is still missing.
    pub fn accept(&mut self, result: GrepResult<P>) -> (emitted: Vec<GrepResult<P>>)
        requires
            old(self)@.wf(),
            old(self)@.phase == Phase::Running,
        ensures
            emitted@ == old(self)@.released(result),
            final(self)@ == old(self)@.after(result),
            final(self)@.wf(),
            final(self)@.is_settled(),
            forall|i: int|
                0 <= i < emitted@.len() ==> (#[trigger] emitted@[i]).sequence_id == old(
                    self,
                )@.next_expected + i,
    {
        let ghost stored = self@.stored(result);
        let ghost start = self@.next_expected;
        self.buffer.insert(result.sequence_id, result);
        let emitted = self.flush();
        proof {
            lemma_ready_is_consecutive(stored, start);
            assert forall|i: int| 0 <= i < emitted@.len() implies (#[trigger] emitted@[i]).sequence_id
                == start + i by {
                // every result is stored under its own id
                let id = (start + i) as u64;
                assert(start <= id < start + emitted@.len());
                assert(stored.contains_key(id));
                assert(emitted@[id - start] == stored[id]);
            }
        }
        emitted
    }

    /// Records that the result stream was closed. From here on no result is
    /// taken in.
    pub fn close(&mut self)
        requires
            old(self)@.phase == Phase::Running,
        ensures
            final(self)@ == (ReassemblerState { phase: Phase::Draining, ..old(self)@ }),
            old(self)@.wf() ==> final(self)@.wf(),
    {
        self.phase = Phase::Draining;
    }

    /// Flushes what is still due and ends the run. A reassembler that is
    /// settled, as it is after `new` and after every `accept`, has nothing
    /// left to flush.
    pub fn drain(&mut self) -> (emitted: Vec<GrepResult<P>>)
        requires
            old(self)@.phase == Phase::Draining,
        ensures
            emitted@ == ready(old(self)@.buffer, old(self)@.next_expected),
            old(self)@.is_settled() ==> emitted@.len() == 0 && final(self)@.buffer == old(
                self,
            )@.buffer,
            final(self)@.next_expected == old(self)@.next_expected + emitted@.len(),
            final(self)@.buffer == old(self)@.buffer.remove_keys(
                id_span(old(self)@.next_expected, final(self)@.next_expected),
            ),
            final(self)@.phase == Phase::Done,
            old(self)@.wf() ==> final(self)@.wf(),
    {
        let emitted = self.flush();
        self.phase = Phase::Done;
        emitted
    }
}

} // verus!
