//! Cutting the byte stream of the serial port into packets: a packet is a run
//! of non-zero bytes that ends with a zero byte.

use vstd::prelude::*;

verus! {

/// The most bytes a packet may have.
pub const FRAME_CAPACITY: usize = 32;

/// What a byte did to the packet that is being collected.
#[derive(Clone, Debug, PartialEq, Eq)]
pub enum FrameEvent {
    /// Nothing is complete yet.
    Pending,
    /// The byte ended this packet.
    Frame(Vec<u8>),
    /// The byte did not fit: what was collected has been thrown away.
    TooLong,
}

/// What a [`FrameEvent`] says, as plain values.
pub enum FrameEventView {
    Pending,
    Frame(Seq<u8>),
    TooLong,
}

impl View for FrameEvent {
    type V = FrameEventView;

    open spec fn view(&self) -> FrameEventView {
        match self {
            FrameEvent::Pending => FrameEventView::Pending,
            FrameEvent::Frame(bytes) => FrameEventView::Frame(bytes@),
            FrameEvent::TooLong => FrameEventView::TooLong,
        }
    }
}

/// What the byte `byte` does when `collected` is what has been collected of
/// the current packet: the event, and what is collected afterwards.
pub open spec fn framed(collected: Seq<u8>, byte: u8) -> (FrameEventView, Seq<u8>) {
    if byte == 0 {
        if collected.len() > 0 {
            (FrameEventView::Frame(collected), Seq::empty())
        } else {
            (FrameEventView::Pending, Seq::empty())
        }
    } else if collected.len() < FRAME_CAPACITY {
        (FrameEventView::Pending, collected.push(byte))
    } else {
        (FrameEventView::TooLong, Seq::empty())
    }
}

/// The bytes collected of the packet that is being received.
pub struct Framer {
    buf: [u8; FRAME_CAPACITY],
    len: usize,
}

impl Framer {
    /// The number of bytes collected fits the storage.
    pub closed spec fn wf(&self) -> bool {
        self.len <= FRAME_CAPACITY
    }

    /// The bytes collected so far.
    pub closed spec fn view(&self) -> Seq<u8> {
        self.buf@.take(self.len as int)
    }

    /// A framer that has collected nothing.
    pub fn new() -> (framer: Framer)
        ensures
            framer.wf(),
            framer@ == Seq::<u8>::empty(),
    {
        let framer = Framer { buf: [0;FRAME_CAPACITY], len: 0 };
        assert(framer@ =~= Seq::<u8>::empty());
        framer
    }

    /// Takes in the next byte of the stream.
    pub fn push(&mut self, byte: u8) -> (event: FrameEvent)
        requires
            old(self).wf(),
        ensures
            final(self).wf(),
            (event@, final(self)@) == framed(old(self)@, byte),
    {
        if byte == 0 {
            let event = if self.len > 0 {
                let mut packet: Vec<u8> = Vec::new();
                let mut i: usize = 0;
                while i < self.len
                    invariant
                        i <= self.len <= FRAME_CAPACITY,
                        packet@ == self.buf@.take(i as int),
                    decreases self.len - i,
                {
                    packet.push(self.buf[i]);
                    assert(packet@ =~= self.buf@.take(i + 1));
                    i += 1;
                }
                FrameEvent::Frame(packet)
            } else {
                FrameEvent::Pending
            };
            self.len = 0;
            assert(self@ =~= Seq::<u8>::empty());
            event
        } else if self.len < FRAME_CAPACITY {
            self.buf[self.len] = byte;
            self.len += 1;
            assert(self@ =~= old(self)@.push(byte));
            FrameEvent::Pending
        } else {
            self.len = 0;
            assert(self@ =~= Seq::<u8>::empty());
            FrameEvent::TooLong
        }
    }
}

} // verus!
