//! The pipeline as a whole: from discovered files to the ordered output.
//!
//! A run is described by three things: the files that the walker found, with
//! what reading each of them gave; the order in which the workers completed
//! them, which decides the sequence ids; and the order in which the results
//! reached the reassembler. Only the first is given by the file tree. This
//! module states what every run emits whatever the other two are, and offers
//! the one substrate that needs no threads: files searched one after the
//! other on the calling thread.

use crate::grep_result::{GrepRecord, GrepResult, MatchRange};
use crate::pattern::{matched_ranges, Pattern};
use crate::reassembler::{ready, Phase, Reassembler, ReassemblerState};
use crate::sequencer::Sequencer;
use crate::stream::{
    emitted_by, is_permutation, lemma_reassembly_restores_order, numbered, occurs_before,
    reordered,
};
use crate::walker::{collect_files, files_among, FsNode};
use crate::worker::{search_file, searched};
use vstd::prelude::*;

verus! {

/// A discovered file and what reading it gave: its bytes, or `None` where it
/// could not be read.
#[derive(Clone, Debug, PartialEq, Eq)]
pub struct FileInput<P> {
    pub path: P,
    pub content: Option<Vec<u8>>,
}

/// A [`FileInput`] as plain mathematical values.
pub struct FileRecord<P> {
    pub path: P,
    pub content: Option<Seq<u8>>,
}

impl<P> View for FileInput<P> {
    type V = FileRecord<P>;

    open spec fn view(&self) -> FileRecord<P> {
        FileRecord {
            path: self.path,
            content: match self.content {
                Some(bytes) => Some(bytes@),
                None => None,
            },
        }
    }
}

/// The views of a sequence of files.
pub open spec fn file_records<P>(files: Seq<FileInput<P>>) -> Seq<FileRecord<P>> {
    files.map_values(|file: FileInput<P>| file@)
}

/// The views of a sequence of results.
pub open spec fn grep_records<P>(results: Seq<GrepResult<P>>) -> Seq<GrepRecord<P>> {
    results.map_values(|result: GrepResult<P>| result@)
}

/// What a file contributes to the output, whenever it is completed: its path
/// and its ranges, unless it cannot be read or holds no match.
pub open spec fn contribution<P>(source: Seq<char>, file: FileRecord<P>) -> Option<
    (P, Seq<MatchRange>),
> {
    match searched(source, file.path, file.content, 0) {
        Some(record) => Some(record.pair()),
        None => None,
    }
}

/// The pairs of path and ranges that a run over `files` owes: one for every
/// readable file in which the pattern matches, and no other.
pub open spec fn expected_pairs<P>(source: Seq<char>, files: Seq<FileRecord<P>>) -> Set<
    (P, Seq<MatchRange>),
> {
    Set::new(
        |pair: (P, Seq<MatchRange>)|
            exists|i: int|
                0 <= i < files.len() && contribution(source, #[trigger] files[i]) == Some(pair),
    )
}

/// The pairs of path and ranges among `records`.
pub open spec fn pairs_of<P>(records: Seq<GrepRecord<P>>) -> Set<(P, Seq<MatchRange>)> {
    Set::new(
        |pair: (P, Seq<MatchRange>)|
            exists|k: int| 0 <= k < records.len() && (#[trigger] records[k]).pair() == pair,
    )
}

/// What the workers produce when they complete `files` in the order given:
/// each file that is readable and matches becomes a record, and the records
/// are numbered 0, 1, 2, .. in that order.
pub open spec fn records_of<P>(source: Seq<char>, files: Seq<FileRecord<P>>) -> Seq<GrepRecord<P>>
    decreases files.len(),
{
    if files.len() == 0 {
        Seq::empty()
    } else {
        let earlier = records_of(source, files.drop_last());
        match searched(source, files.last().path, files.last().content, earlier.len()) {
            Some(record) => earlier.push(record),
            None => earlier,
        }
    }
}

/// The records that the workers produce are numbered by position, are well
/// formed wherever the engine's offsets are, and their pairs are exactly the
/// pairs that the files owe.
pub proof fn lemma_records_of<P>(source: Seq<char>, files: Seq<FileRecord<P>>)
    requires
        files.len() <= u64::MAX,
    ensures
        records_of(source, files).len() <= files.len(),
        forall|k: int|
            0 <= k < records_of(source, files).len() ==> (#[trigger] records_of(
                source,
                files,
            )[k]).sequence_id == k,
        pairs_of(records_of(source, files)) == expected_pairs(source, files),
    decreases files.len(),
{
    let records = records_of(source, files);
    if files.len() == 0 {
        assert(pairs_of(records) =~= expected_pairs(source, files));
    } else {
        let rest = files.drop_last();
        let last = files.last();
        lemma_records_of(source, rest);
        let earlier = records_of(source, rest);
        let made = searched(source, last.path, last.content, earlier.len());
        assert forall|pair: (P, Seq<MatchRange>)|
            pairs_of(records).contains(pair) <==> expected_pairs(source, files).contains(
                pair,
            ) by {
            if pairs_of(records).contains(pair) {
                let k = choose|k: int| 0 <= k < records.len() && (#[trigger] records[k]).pair()
                    == pair;
                if k < earlier.len() {
                    assert(earlier[k].pair() == pair);
                    assert(pairs_of(earlier).contains(pair));
                    assert(expected_pairs(source, rest).contains(pair));
                    let i = choose|i: int|
                        0 <= i < rest.len() && contribution(source, #[trigger] rest[i]) == Some(
                            pair,
                        );
                    assert(files[i] == rest[i]);
                } else {
                    assert(contribution(source, files[files.len() - 1]) == Some(pair));
                }
            }
            if expected_pairs(source, files).contains(pair) {
                let i = choose|i: int|
                    0 <= i < files.len() && contribution(source, #[trigger] files[i]) == Some(
                        pair,
                    );
                if i < rest.len() {
                    assert(rest[i] == files[i]);
                    assert(expected_pairs(source, rest).contains(pair));
                    assert(pairs_of(earlier).contains(pair));
                    let k = choose|k: int| 0 <= k < earlier.len() && (#[trigger] earlier[k]).pair()
                        == pair;
                    assert(records[k] == earlier[k]);
                } else {
                    assert(made.is_some());
                    assert(records[earlier.len() as int].pair() == pair);
                }
            }
        }
        assert(pairs_of(records) =~= expected_pairs(source, files));
    }
}

/// The pairs that a set of files owes do not depend on the order in which the
/// files are taken.
pub proof fn lemma_expected_pairs_of_reordered<P>(
    source: Seq<char>,
    files: Seq<FileRecord<P>>,
    completion: Seq<int>,
)
    requires
        is_permutation(completion, files.len()),
    ensures
        expected_pairs(source, reordered(files, completion)) == expected_pairs(source, files),
{
    let taken = reordered(files, completion);
    assert forall|pair: (P, Seq<MatchRange>)|
        expected_pairs(source, taken).contains(pair) <==> expected_pairs(source, files).contains(
            pair,
        ) by {
        if expected_pairs(source, taken).contains(pair) {
            let i = choose|i: int|
                0 <= i < taken.len() && contribution(source, #[trigger] taken[i]) == Some(pair);
            assert(taken[i] == files[completion[i]]);
        }
        if expected_pairs(source, files).contains(pair) {
            let k = choose|k: int|
                0 <= k < files.len() && contribution(source, #[trigger] files[k]) == Some(pair);
            assert(occurs_before(completion, files.len() as int, k));
            let i = choose|i: int| 0 <= i < files.len() && #[trigger] completion[i] == k;
            assert(taken[i] == files[k]);
        }
    }
    assert(expected_pairs(source, taken) =~= expected_pairs(source, files));
}

/// The set of results does not depend on the run. Take the files of a tree
/// in any order of completion, let the workers number the results in that
/// order, and let the results reach the reassembler in any order of arrival:
/// what is emitted are those results in id order, ids 0, 1, 2, .. without a
/// gap, and the pairs of path and ranges among them are the pairs that the
/// files owe. Two runs over the same files, on whichever substrate, thus
/// emit the same set of pairs.
pub proof fn lemma_result_set_is_run_independent<P>(
    source: Seq<char>,
    files: Seq<FileRecord<P>>,
    completion: Seq<int>,
    results: Seq<GrepResult<P>>,
    arrival: Seq<int>,
)
    requires
        files.len() <= u64::MAX,
        is_permutation(completion, files.len()),
        grep_records(results) == records_of(source, reordered(files, completion)),
        is_permutation(arrival, results.len()),
    ensures
        emitted_by(reordered(results, arrival)) == results,
        forall|k: int|
            0 <= k < results.len() ==> (#[trigger] emitted_by(
                reordered(results, arrival),
            )[k]).sequence_id == k,
        pairs_of(grep_records(emitted_by(reordered(results, arrival)))) == expected_pairs(
            source,
            files,
        ),
{
    let taken = reordered(files, completion);
    lemma_records_of(source, taken);
    lemma_expected_pairs_of_reordered(source, files, completion);
    assert(numbered(results)) by {
        assert(results.len() == grep_records(results).len());
        assert forall|k: int| 0 <= k < results.len() implies (#[trigger] results[k]).sequence_id
            == k by {
            assert(grep_records(results)[k] == results[k]@);
        }
    }
    lemma_reassembly_restores_order(results, arrival);
}

/// Nothing appears that was not found. Every record that the workers
/// produce stems from one of the files: a file that could be read, whose
/// content the record carries, and in which the pattern matches at the
/// ranges the record reports, of which there is at least one. A file that
/// cannot be read and a file without a match therefore never show up in
/// the output, and neither stops the files after it from being searched.
pub proof fn lemma_only_matching_files_appear<P>(
    source: Seq<char>,
    files: Seq<FileRecord<P>>,
    k: int,
)
    requires
        0 <= k < records_of(source, files).len(),
    ensures
        exists|i: int|
            0 <= i < files.len() && (#[trigger] files[i]).path == records_of(source, files)[k].path
                && files[i].content == Some(records_of(source, files)[k].content)
                && records_of(source, files)[k].ranges == matched_ranges(
                source,
                records_of(source, files)[k].content,
            ) && records_of(source, files)[k].ranges.len() > 0,
    decreases files.len(),
{
    let records = records_of(source, files);
    let rest = files.drop_last();
    let earlier = records_of(source, rest);
    if k < earlier.len() {
        lemma_only_matching_files_appear(source, rest, k);
        let i = choose|i: int|
            0 <= i < rest.len() && (#[trigger] rest[i]).path == earlier[k].path && rest[i].content
                == Some(earlier[k].content) && earlier[k].ranges == matched_ranges(
                source,
                earlier[k].content,
            ) && earlier[k].ranges.len() > 0;
        assert(files[i] == rest[i]);
        assert(records[k] == earlier[k]);
    } else {
        let last = files[files.len() - 1];
        assert(records[k].path == last.path);
    }
}

/// Nothing that was found is lost. Every file that could be read and in
/// which the pattern matches has its record among those that the workers
/// produce.
pub proof fn lemma_every_matching_file_appears<P>(
    source: Seq<char>,
    files: Seq<FileRecord<P>>,
    i: int,
)
    requires
        0 <= i < files.len(),
        files[i].content.is_some(),
        matched_ranges(source, files[i].content.unwrap()).len() > 0,
    ensures
        exists|k: int|
            0 <= k < records_of(source, files).len() && (#[trigger] records_of(
                source,
                files,
            )[k]).path == files[i].path && records_of(source, files)[k].content
                == files[i].content.unwrap() && records_of(source, files)[k].ranges
                == matched_ranges(source, files[i].content.unwrap()),
    decreases files.len(),
{
    let records = records_of(source, files);
    let rest = files.drop_last();
    let earlier = records_of(source, rest);
    if i < rest.len() {
        assert(rest[i] == files[i]);
        lemma_every_matching_file_appears(source, rest, i);
        let k = choose|k: int|
            0 <= k < earlier.len() && (#[trigger] earlier[k]).path == rest[i].path
                && earlier[k].content == rest[i].content.unwrap() && earlier[k].ranges
                == matched_ranges(source, rest[i].content.unwrap());
        assert(records[k] == earlier[k]);
    } else {
        assert(records[earlier.len() as int].path == files[i].path);
    }
}

/// A file that cannot be read and a file in which the pattern does not match
/// owe nothing, and what a file owes never has an empty list of ranges.
pub proof fn lemma_silent_files<P>(source: Seq<char>, file: FileRecord<P>)
    ensures
        file.content is None ==> contribution(source, file) is None,
        file.content matches Some(bytes) && matched_ranges(source, bytes).len() == 0
            ==> contribution(source, file) is None,
        contribution(source, file) matches Some(pair) ==> pair.0 == file.path && pair.1.len() > 0
            && file.content.is_some() && pair.1 == matched_ranges(source, file.content.unwrap()),
{
}

/// What the workers hand to the result stream when they complete `files` in
/// the order given: one result for each readable file in which the pattern
/// matches, numbered 0, 1, 2, .. in that order. The results are not put
/// through a reassembler: they are the arrivals of a run, in the order of
/// their ids, and may reach a reassembler in any order.
pub fn search_all<P>(pattern: &Pattern, files: Vec<FileInput<P>>) -> (results: Vec<GrepResult<P>>)
    ensures
        grep_records(results@) == records_of(pattern@, file_records(files@)),
        numbered(results@),
        forall|k: int| 0 <= k < results@.len() ==> (#[trigger] results@[k])@.wf(),
{
    let ghost all = file_records(files@);
    assert(all.len() == files.len());
    let mut sequencer = Sequencer::new();
    let mut results: Vec<GrepResult<P>> = Vec::new();
    assert(all.take(0) =~= Seq::empty());
    assert(grep_records(results@) =~= Seq::empty());
    for file in it: files.into_iter()
        invariant
            it.seq() == files@,
            all == file_records(files@),
            all.len() <= usize::MAX,
            sequencer.issued() == results@.len(),
            results@.len() <= it.index(),
            grep_records(results@) == records_of(pattern@, all.take(it.index() as int)),
            forall|k: int| 0 <= k < results@.len() ==> (#[trigger] results@[k])@.wf(),
            forall|k: int| 0 <= k < results@.len() ==> (#[trigger] results@[k]).sequence_id == k,
    {
        let ghost m = it.index() as int;
        let ghost before = results@;
        proof {
            assert(m < all.len());
            assert(all.take(m + 1).drop_last() =~= all.take(m));
            assert(all.take(m + 1).last() == file@);
        }
        let FileInput { path, content } = file;
        match search_file(pattern, path, content, &mut sequencer) {
            Some(result) => {
                results.push(result);
                proof {
                    assert(result@.sequence_id == before.len());
                    assert(grep_records(results@) =~= grep_records(before).push(result@));
                }
            },
            None => {},
        }
    }
    proof {
        assert(all.take(all.len() as int) =~= all);
    }
    results
}

/// Searches the files one after the other on the calling thread and hands
/// every result to a reassembler at once. The output holds one result for
/// each readable file in which the pattern matches, in the order of the
/// files, numbered 0, 1, 2, ..; the reassembler ends in its last phase with
/// nothing held back.
pub fn run_sequential<P>(pattern: &Pattern, files: Vec<FileInput<P>>) -> (run: (
    Vec<GrepResult<P>>,
    Reassembler<P>,
))
    ensures
        grep_records(run.0@) == records_of(pattern@, file_records(files@)),
        forall|k: int| 0 <= k < run.0@.len() ==> (#[trigger] run.0@[k])@.wf(),
        pairs_of(grep_records(run.0@)) == expected_pairs(pattern@, file_records(files@)),
        run.1@ == (ReassemblerState::<P> {
            buffer: Map::empty(),
            next_expected: run.0@.len(),
            phase: Phase::Done,
        }),
{
    let ghost all = file_records(files@);
    assert(all.len() == files.len());
    let mut sequencer = Sequencer::new();
    let mut reassembler: Reassembler<P> = Reassembler::new();
    let mut emitted: Vec<GrepResult<P>> = Vec::new();
    assert(all.take(0) =~= Seq::empty());
    assert(grep_records(emitted@) =~= Seq::empty());
    for file in it: files.into_iter()
        invariant
            it.seq() == files@,
            all == file_records(files@),
            all.len() <= usize::MAX,
            sequencer.issued() == emitted@.len(),
            emitted@.len() <= it.index(),
            grep_records(emitted@) == records_of(pattern@, all.take(it.index() as int)),
            forall|k: int| 0 <= k < emitted@.len() ==> (#[trigger] emitted@[k])@.wf(),
            reassembler@ == (ReassemblerState::<P> {
                buffer: Map::empty(),
                next_expected: emitted@.len(),
                phase: Phase::Running,
            }),
    {
        let ghost m = it.index() as int;
        let ghost before = emitted@;
        proof {
            assert(m < all.len());
            assert(all.take(m + 1).drop_last() =~= all.take(m));
            assert(all.take(m + 1).last() == file@);
        }
        let FileInput { path, content } = file;
        match search_file(pattern, path, content, &mut sequencer) {
            Some(result) => {
                let ghost held = reassembler@;
                let mut released = reassembler.accept(result);
                proof {
                    let stored = held.stored(result);
                    let next = held.next_expected;
                    assert(result@.sequence_id == next);
                    assert(next < u64::MAX);
                    assert(stored.contains_key(next as u64));
                    assert(ready(stored, next + 1) =~= Seq::empty());
                    assert(ready(stored, next) =~= seq![stored[next as u64]] + ready(
                        stored,
                        next + 1,
                    ));
                    assert(released@ =~= seq![result]);
                    assert(reassembler@.buffer =~= Map::empty());
                }
                emitted.append(&mut released);
                proof {
                    assert(emitted@ =~= before.push(result));
                    assert(grep_records(emitted@) =~= grep_records(before).push(result@));
                }
            },
            None => {},
        }
    }
    proof {
        assert(all.take(all.len() as int) =~= all);
        lemma_records_of(pattern@, all);
    }
    reassembler.close();
    let mut flushed = reassembler.drain();
    emitted.append(&mut flushed);
    (emitted, reassembler)
}

/// Searches file trees held in memory: walks `roots`, searches every regular
/// file that the walk meets, and hands back the results in the order in
/// which the files were met, numbered 0, 1, 2, .., with the reassembler in
/// its last phase. Roots that hold no file at all give no result.
pub fn grep_tree<P>(pattern: &Pattern, roots: Vec<FsNode<P>>) -> (run: (
    Vec<GrepResult<P>>,
    Reassembler<P>,
))
    ensures
        grep_records(run.0@) == records_of(pattern@, files_among(roots@)),
        forall|k: int| 0 <= k < run.0@.len() ==> (#[trigger] run.0@[k])@.wf(),
        pairs_of(grep_records(run.0@)) == expected_pairs(pattern@, files_among(roots@)),
        run.1@ == (ReassemblerState::<P> {
            buffer: Map::empty(),
            next_expected: run.0@.len(),
            phase: Phase::Done,
        }),
{
    let files = collect_files(roots);
    run_sequential(pattern, files)
}

} // verus!
