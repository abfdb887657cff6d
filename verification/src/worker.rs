//! The matcher: what one worker does with one file.
//!
//! A worker is handed a path and whatever reading the file gave. A file that
//! could not be read is dropped without a trace, and so is a file in which
//! the pattern does not match. Only a file with at least one match draws a
//! sequence id and becomes a [`GrepResult`].

use crate::grep_result::{GrepRecord, GrepResult, MatchRange};
use crate::pattern::{matched_ranges, Pattern};
use crate::sequencer::Sequencer;
use vstd::prelude::*;

verus! {

/// What a worker hands on for a file whose content and ranges are known, as
/// plain values: nothing where there is no range, and otherwise the record
/// that carries the id `next`.
pub open spec fn completed<P>(path: P, content: Seq<u8>, ranges: Seq<MatchRange>, next: nat)
    -> Option<GrepRecord<P>> {
    if ranges.len() == 0 {
        None
    } else {
        Some(GrepRecord { path, content, ranges, sequence_id: next as u64 })
    }
}

/// What a worker hands on for a file, given what reading it gave: nothing for
/// a file that could not be read or in which the pattern does not match.
pub open spec fn searched<P>(source: Seq<char>, path: P, content: Option<Seq<u8>>, next: nat)
    -> Option<GrepRecord<P>> {
    match content {
        None => None,
        Some(bytes) => completed(path, bytes, matched_ranges(source, bytes), next),
    }
}

/// Completes a file whose matches are known. A file without a match leaves no
/// result and draws no id; a file with matches draws the next id.
pub fn complete<P>(
    path: P,
    content: Vec<u8>,
    ranges: Vec<MatchRange>,
    sequencer: &mut Sequencer,
) -> (result: Option<GrepResult<P>>)
    requires
        old(sequencer).issued() < u64::MAX,
    ensures
        match result {
            Some(r) => Some(r@),
            None => None,
        } == completed(path, content@, ranges@, old(sequencer).issued()),
        result matches Some(r) ==> r.content == content && r.ranges == ranges,
        final(sequencer).issued() == old(sequencer).issued() + if result.is_some() {
            1nat
        } else {
            0nat
        },
{
    if ranges.len() == 0 {
        None
    } else {
        let sequence_id = sequencer.issue();
        Some(GrepResult { path, content, ranges, sequence_id })
    }
}

/// Searches one file. `content` is what reading the file gave, `None` where
/// it could not be read.
pub fn search_file<P>(
    pattern: &Pattern,
    path: P,
    content: Option<Vec<u8>>,
    sequencer: &mut Sequencer,
) -> (result: Option<GrepResult<P>>)
    requires
        old(sequencer).issued() < u64::MAX,
    ensures
        match result {
            Some(r) => Some(r@),
            None => None,
        } == searched(
            pattern@,
            path,
            match content {
                Some(bytes) => Some(bytes@),
                None => None,
            },
            old(sequencer).issued(),
        ),
        result matches Some(r) ==> r@.wf() && Some(r.content) == content,
        final(sequencer).issued() == old(sequencer).issued() + if result.is_some() {
            1nat
        } else {
            0nat
        },
{
    match content {
        None => None,
        Some(bytes) => {
            let ranges = pattern.match_ranges(bytes.as_slice());
            complete(path, bytes, ranges, sequencer)
        },
    }
}

} // verus!
