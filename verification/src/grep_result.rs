//! Match ranges and the record produced for a file that matched.

use vstd::prelude::*;

verus! {

/// The bytes `start..end` of a file's content that one match covers.
#[derive(Clone, Copy, Debug, PartialEq, Eq, Structural)]
pub struct MatchRange {
    pub start: usize,
    pub end: usize,
}

/// Ranges as a search leaves them behind for a content of `len` bytes:
/// none is empty, none reaches past the content, and they follow each other
/// from left to right without overlap.
pub open spec fn ranges_in_order(ranges: Seq<MatchRange>, len: nat) -> bool {
    &&& forall|i: int|
        0 <= i < ranges.len() ==> (#[trigger] ranges[i]).start < ranges[i].end <= len
    &&& forall|i: int, j: int|
        0 <= i < j < ranges.len() ==> (#[trigger] ranges[i]).end <= (#[trigger] ranges[j]).start
}

/// One matched file: where it is, what it holds, where the pattern matched
/// and the position of this result in the output order.
#[derive(Clone, Debug, PartialEq, Eq)]
pub struct GrepResult<P> {
    pub path: P,
    pub content: Vec<u8>,
    pub ranges: Vec<MatchRange>,
    pub sequence_id: u64,
}

/// What a [`GrepResult`] says, as plain mathematical values.
pub struct GrepRecord<P> {
    pub path: P,
    pub content: Seq<u8>,
    pub ranges: Seq<MatchRange>,
    pub sequence_id: u64,
}

impl<P> View for GrepResult<P> {
    type V = GrepRecord<P>;

    open spec fn view(&self) -> GrepRecord<P> {
        GrepRecord {
            path: self.path,
            content: self.content@,
            ranges: self.ranges@,
            sequence_id: self.sequence_id,
        }
    }
}

impl<P> GrepRecord<P> {
    /// A record is well formed when it reports at least one match and its
    /// ranges are in order within its content.
    pub open spec fn wf(self) -> bool {
        &&& self.ranges.len() > 0
        &&& ranges_in_order(self.ranges, self.content.len())
    }

    /// The part of a record that does not depend on the order in which files
    /// were completed.
    pub open spec fn pair(self) -> (P, Seq<MatchRange>) {
        (self.path, self.ranges)
    }
}

impl<P> GrepResult<P> {
    /// Number of matches in the file.
    pub fn match_count(&self) -> (n: usize)
        ensures
            n == self@.ranges.len(),
    {
        self.ranges.len()
    }
}

} // verus!
