//! The messages that the host sends to the board, and the envelope that
//! guards each of them with a checksum over its encoded bytes.
//!
//! Encoding and decoding are the caller's business; this module only sums
//! and compares bytes.

use vstd::prelude::*;

verus! {

/// What the screen shows.
#[derive(Clone, Copy, Debug, PartialEq, Eq, Structural)]
pub enum DisplayMode {
    /// The path the player has taken.
    Trail,
    /// The number of moves made.
    Steps,
}

/// An instruction for the game.
#[derive(Clone, Copy, Debug, PartialEq, Eq, Structural)]
pub enum Message {
    /// Move by `dx` columns and `dy` rows, one pixel at a time.
    Move { dx: i8, dy: i8 },
    /// Move to the pixel `(x, y)`, one pixel at a time.
    MoveTo { x: u8, y: u8 },
    /// Switch what the screen shows.
    SetDisplayMode(DisplayMode),
    /// Put the player back in the middle and forget the trail.
    Reset,
}

/// A message and the checksum of its encoding.
#[derive(Clone, Copy, Debug, PartialEq, Eq, Structural)]
pub struct Envelope {
    pub msg: Message,
    pub checksum: u8,
}

/// The sum of the bytes.
pub open spec fn byte_sum(bytes: Seq<u8>) -> nat
    decreases bytes.len(),
{
    if bytes.len() == 0 {
        0
    } else {
        byte_sum(bytes.drop_last()) + bytes.last() as nat
    }
}

/// The checksum of an encoding: the sum of its bytes modulo 256.
pub open spec fn checksum_of(bytes: Seq<u8>) -> u8 {
    (byte_sum(bytes) % 256) as u8
}

/// Computes the checksum of an encoded message: the wrapping sum of its
/// bytes.
pub fn checksum_for(encoded: &[u8]) -> (sum: u8)
    ensures
        sum == checksum_of(encoded@),
{
    let mut sum: u8 = 0;
    let mut i: usize = 0;
    while i < encoded.len()
        invariant
            i <= encoded.len(),
            sum == checksum_of(encoded@.take(i as int)),
        decreases encoded.len() - i,
    {
        proof {
            assert(encoded@.take(i + 1).drop_last() =~= encoded@.take(i as int));
            assert(encoded@.take(i + 1).last() == encoded@[i as int]);
        }
        sum = sum.wrapping_add(encoded[i]);
        i += 1;
    }
    assert(encoded@.take(encoded.len() as int) =~= encoded@);
    sum
}

impl Envelope {
    /// Wraps `msg` with the checksum of `encoded`, the bytes it is encoded
    /// as.
    pub fn new(msg: Message, encoded: &[u8]) -> (envelope: Envelope)
        ensures
            envelope.msg == msg,
            envelope.checksum == checksum_of(encoded@),
    {
        Envelope { msg, checksum: checksum_for(encoded) }
    }

    /// Whether the checksum that came with the message is the checksum of
    /// `encoded`, the bytes the message is encoded as.
    pub fn is_intact(&self, encoded: &[u8]) -> (intact: bool)
        ensures
            intact == (self.checksum == checksum_of(encoded@)),
    {
        self.checksum == checksum_for(encoded)
    }
}

} // verus!
