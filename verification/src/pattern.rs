//! The search pattern: a regular expression over bytes.
//!
//! Compilation and matching are done by the `regex` crate. What this module
//! adds is a name for what the engine returns, so that the rest of the
//! library can say which ranges a file contributes without saying how a
//! regular expression is matched. Of the matches that the engine reports,
//! only those that cover at least one byte count as ranges.

use crate::grep_result::{ranges_in_order, MatchRange};
use regex::bytes::Regex;
use vstd::prelude::*;

verus! {

/// `regex::bytes::Regex`, a compiled regular expression. Opaque to the proofs.
#[verifier::external_type_specification]
#[verifier::external_body]
pub struct ExRegex(regex::bytes::Regex);

/// `regex::Error`, the reason a pattern was refused. Opaque to the proofs.
#[verifier::external_type_specification]
#[verifier::external_body]
pub struct ExRegexError(regex::Error);

/// Whether `regex::bytes::Regex::new` accepts `source`.
pub uninterp spec fn pattern_compiles(source: Seq<char>) -> bool;

/// The `(start, end)` offsets that the regular expression written as `source`
/// yields, in the order `regex::bytes::Regex::find_iter` yields them, when it
/// searches `haystack`.
pub uninterp spec fn pattern_matches(source: Seq<char>, haystack: Seq<u8>) -> Seq<(usize, usize)>;

/// What the engine promises of the offsets it yields for a haystack of `len`
/// bytes: each match ends no earlier than it starts and lies inside the
/// haystack, and successive matches do not overlap.
pub open spec fn offsets_in_order(found: Seq<(usize, usize)>, len: nat) -> bool {
    &&& forall|i: int| 0 <= i < found.len() ==> (#[trigger] found[i]).0 <= found[i].1 <= len
    &&& forall|i: int, j: int|
        0 <= i < j < found.len() ==> (#[trigger] found[i]).1 <= (#[trigger] found[j]).0
}

/// Why a pattern could not be compiled.
#[derive(Clone, Debug, PartialEq, Eq)]
pub struct PatternCompileError {
    /// The engine's own description of the fault.
    pub message: String,
}

/// A compiled search pattern together with the text it was compiled from.
///
/// The two fields always belong together: the only way to make a `Pattern` is
/// [`Pattern::compile`], which stores the text next to what the engine made of
/// it. The view of a pattern is that text.
pub struct Pattern {
    source: String,
    regex: Regex,
}

impl View for Pattern {
    type V = Seq<char>;

    closed spec fn view(&self) -> Seq<char> {
        self.source@
    }
}

/// Calls `regex::bytes::Regex::new`. Trusted: the call succeeds exactly on the
/// texts for which [`pattern_compiles`] holds, which only gives the engine's
/// answer a name.
#[verifier::external_body]
fn regex_new(source: &str) -> (compiled: Result<Regex, regex::Error>)
    ensures
        compiled.is_ok() == pattern_compiles(source@),
{
    Regex::new(source)
}

/// Renders a `regex::Error` through its `Display` impl. Trusted; nothing is
/// claimed of the text.
#[verifier::external_body]
fn regex_error_message(error: &regex::Error) -> (message: String) {
    error.to_string()
}

/// Calls `regex::bytes::Regex::find_iter` and collects the offsets of every
/// match it yields. Trusted: the offsets are the ones named by
/// [`pattern_matches`] for the pattern's text and the haystack, and they are
/// in order as the engine documents (`start <= end`, offsets usable to slice
/// the haystack, successive matches non-overlapping).
#[verifier::external_body]
fn regex_find_all(pattern: &Pattern, haystack: &[u8]) -> (found: Vec<(usize, usize)>)
    ensures
        found@ == pattern_matches(pattern@, haystack@),
        offsets_in_order(found@, haystack@.len()),
{
    pattern.regex.find_iter(haystack).map(|m| (m.start(), m.end())).collect()
}

impl Pattern {
    /// Compiles `source`. Fails exactly when the engine refuses the text.
    pub fn compile(source: &str) -> (outcome: Result<Pattern, PatternCompileError>)
        ensures
            outcome.is_ok() == pattern_compiles(source@),
            outcome matches Ok(pattern) ==> pattern@ == source@,
    {
        match regex_new(source) {
            Ok(regex) => Ok(Pattern { source: source.to_owned(), regex }),
            Err(error) => Err(PatternCompileError { message: regex_error_message(&error) }),
        }
    }

    /// The text this pattern was compiled from.
    pub fn as_str(&self) -> (source: &str)
        ensures
            source@ == self@,
    {
        self.source.as_str()
    }
}

/// A reported offset pair as a range, unless the match is empty.
pub open spec fn as_range(offsets: (usize, usize)) -> Option<MatchRange> {
    if offsets.0 < offsets.1 {
        Some(MatchRange { start: offsets.0, end: offsets.1 })
    } else {
        None
    }
}

/// The non-empty matches among `found`, in the order in which they were found.
pub open spec fn nonempty_ranges(found: Seq<(usize, usize)>) -> Seq<MatchRange> {
    found.filter_map(|offsets: (usize, usize)| as_range(offsets))
}

/// The ranges that a file with the given content contributes under the
/// pattern written as `source`.
pub open spec fn matched_ranges(source: Seq<char>, content: Seq<u8>) -> Seq<MatchRange> {
    nonempty_ranges(pattern_matches(source, content))
}

/// Offsets that are in order leave ranges that are in order.
pub proof fn lemma_nonempty_ranges_in_order(found: Seq<(usize, usize)>, len: nat)
    requires
        offsets_in_order(found, len),
    ensures
        ranges_in_order(nonempty_ranges(found), len),
    decreases found.len(),
{
    let f = |offsets: (usize, usize)| as_range(offsets);
    if found.len() > 0 {
        let rest = found.drop_last();
        let last = found.last();
        assert(offsets_in_order(rest, len)) by {
            assert forall|i: int| 0 <= i < rest.len() implies rest[i] == found[i] by {}
        }
        lemma_nonempty_ranges_in_order(rest, len);
        let kept = nonempty_ranges(rest);
        let all = nonempty_ranges(found);
        assert(kept == rest.filter_map(f));
        assert(all == found.filter_map(f));
        if as_range(last).is_some() {
            assert(all == kept + seq![as_range(last).unwrap()]);
            assert forall|k: int| 0 <= k < kept.len() implies (#[trigger] kept[k]).end
                <= last.0 by {
                assert(kept.contains(kept[k]));
                rest.lemma_filter_map_contains(f, kept[k]);
                let t = choose|t: (usize, usize)| #[trigger]
                    rest.contains(t) && f(t) == Some(kept[k]);
                let i = choose|i: int| 0 <= i < rest.len() && rest[i] == t;
                assert(found[i] == t);
                assert(found[i].1 <= found[found.len() - 1].0);
            }
            assert(found[found.len() - 1].0 <= found[found.len() - 1].1 <= len);
        } else {
            assert(all == kept);
        }
    }
}

/// Keeps the non-empty matches among the offsets that the engine reported.
pub fn select_ranges(found: &Vec<(usize, usize)>) -> (ranges: Vec<MatchRange>)
    ensures
        ranges@ == nonempty_ranges(found@),
{
    let ghost f = |offsets: (usize, usize)| as_range(offsets);
    let mut ranges: Vec<MatchRange> = Vec::new();
    let mut i: usize = 0;
    while i < found.len()
        invariant
            i <= found.len(),
            f == (|offsets: (usize, usize)| as_range(offsets)),
            ranges@ == found@.take(i as int).filter_map(f),
        decreases found.len() - i,
    {
        let (start, end) = found[i];
        proof {
            found@.lemma_filter_map_take_succ(f, i as int);
        }
        if start < end {
            ranges.push(MatchRange { start, end });
        }
        i = i + 1;
    }
    assert(found@.take(found.len() as int) == found@);
    ranges
}

impl Pattern {
    /// The non-empty matches of the pattern in `content`, leftmost first.
    pub fn match_ranges(&self, content: &[u8]) -> (ranges: Vec<MatchRange>)
        ensures
            ranges@ == matched_ranges(self@, content@),
            ranges_in_order(ranges@, content@.len()),
    {
        let found = regex_find_all(self, content);
        proof {
            lemma_nonempty_ranges_in_order(found@, content@.len());
        }
        select_ranges(&found)
    }
}

} // verus!
