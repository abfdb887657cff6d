//! The receive buffer of the serial port: a fixed-size queue of bytes that
//! overwrites its oldest byte when it is full.

use vstd::prelude::*;

verus! {

/// Number of bytes the buffer can hold.
pub const BUFFER_SIZE: usize = 256;

/// A ring of [`BUFFER_SIZE`] bytes. `tail` is the place of the oldest byte,
/// `head` the place the next byte goes to; when the two meet, `full` tells a
/// full ring from an empty one.
pub struct RingBuffer {
    buffer: [u8; BUFFER_SIZE],
    head: usize,
    tail: usize,
    full: bool,
}

impl RingBuffer {
    /// Both cursors are inside the ring, and a full ring has them meet.
    pub closed spec fn wf(&self) -> bool {
        &&& self.head < BUFFER_SIZE
        &&& self.tail < BUFFER_SIZE
        &&& self.full ==> self.head == self.tail
    }

    /// Number of bytes in the queue.
    pub closed spec fn count(&self) -> nat {
        if self.full {
            BUFFER_SIZE as nat
        } else if self.head >= self.tail {
            (self.head - self.tail) as nat
        } else {
            (BUFFER_SIZE - self.tail + self.head) as nat
        }
    }

    /// The bytes in the queue, oldest first.
    pub closed spec fn view(&self) -> Seq<u8> {
        Seq::new(self.count(), |i: int| self.buffer@[(self.tail + i) % (BUFFER_SIZE as int)])
    }

    /// The queue never holds more than [`BUFFER_SIZE`] bytes.
    pub proof fn lemma_bounded(&self)
        requires
            self.wf(),
        ensures
            self@.len() <= BUFFER_SIZE,
    {
    }

    /// An empty buffer.
    pub fn new() -> (ring: Self)
        ensures
            ring.wf(),
            ring@ == Seq::<u8>::empty(),
    {
        let ring = RingBuffer { buffer: [0;BUFFER_SIZE], head: 0, tail: 0, full: false };
        assert(ring@ =~= Seq::<u8>::empty());
        ring
    }

    /// Whether the queue holds no byte.
    pub fn is_empty(&self) -> (empty: bool)
        requires
            self.wf(),
        ensures
            empty == (self@.len() == 0),
    {
        if self.full {
            false
        } else if self.head == self.tail {
            true
        } else {
            false
        }
    }

    /// Appends `byte`. A full queue first drops its oldest byte.
    pub fn push(&mut self, byte: u8)
        requires
            old(self).wf(),
        ensures
            final(self).wf(),
            final(self)@ == (if old(self)@.len() == BUFFER_SIZE {
                old(self)@.skip(1)
            } else {
                old(self)@
            }).push(byte),
    {
        let ghost before = *self;
        self.buffer[self.head] = byte;
        if self.full {
            self.tail = (self.tail + 1) % BUFFER_SIZE;
        }
        self.head = (self.head + 1) % BUFFER_SIZE;
        self.full = self.head == self.tail;
        proof {
            let kept = if before@.len() == BUFFER_SIZE {
                before@.skip(1)
            } else {
                before@
            };
            assert(self@.len() == kept.len() + 1);
            assert forall|i: int| 0 <= i < self@.len() implies self@[i] == kept.push(byte)[i] by {
                let size = BUFFER_SIZE as int;
                let place = (self.tail + i) % size;
                if i == self@.len() - 1 {
                    assert(place == before.head);
                } else {
                    assert(place != before.head);
                    if before.full {
                        assert(kept[i] == before@[i + 1]);
                        assert(place == (before.tail + (i + 1)) % size);
                    } else {
                        assert(place == (before.tail + i) % size);
                    }
                }
            }
            assert(self@ =~= kept.push(byte));
        }
    }

    /// Takes the oldest byte out of the queue, if there is one.
    pub fn pop(&mut self) -> (byte: Option<u8>)
        requires
            old(self).wf(),
        ensures
            final(self).wf(),
            match byte {
                Some(b) => old(self)@.len() > 0 && b == old(self)@[0] && final(self)@ == old(
                    self,
                )@.skip(1),
                None => old(self)@.len() == 0 && final(self)@ == old(self)@,
            },
    {
        if self.is_empty() {
            return None;
        }
        let ghost before = *self;
        let byte = self.buffer[self.tail];
        self.full = false;
        self.tail = (self.tail + 1) % BUFFER_SIZE;
        proof {
            let size = BUFFER_SIZE as int;
            assert(byte == before@[0]);
            assert(self@.len() == before@.len() - 1);
            assert forall|i: int| 0 <= i < self@.len() implies self@[i] == before@.skip(1)[i] by {
                assert((self.tail + i) % size == (before.tail + (i + 1)) % size);
            }
            assert(self@ =~= before@.skip(1));
        }
        Some(byte)
    }
}

} // verus!
