use mygrep::grep_result::{GrepResult, MatchRange};
use mygrep::pattern::{select_ranges, Pattern};
use mygrep::sequencer::Sequencer;
use mygrep::worker::{complete, search_file};

fn compiled(source: &str) -> Pattern {
    match Pattern::compile(source) {
        Ok(pattern) => pattern,
        Err(error) => panic!("pattern {:?} refused: {}", source, error.message),
    }
}

#[test]
fn sequencer_starts_at_zero_and_counts_up() {
    let mut sequencer = Sequencer::new();
    assert_eq!(sequencer.count(), 0);
    assert_eq!(sequencer.issue(), 0);
    assert_eq!(sequencer.issue(), 1);
    assert_eq!(sequencer.issue(), 2);
    assert_eq!(sequencer.count(), 3);
}

#[test]
fn sequencer_never_repeats_an_id() {
    let mut sequencer = Sequencer::new();
    let mut seen = std::collections::BTreeSet::new();
    for expected in 0..1000u64 {
        let id = sequencer.issue();
        assert_eq!(id, expected);
        assert!(seen.insert(id));
    }
    assert_eq!(seen.len(), 1000);
}

#[test]
fn pattern_compiles_and_keeps_its_text() {
    let pattern = compiled(r"fo+\d");
    assert_eq!(pattern.as_str(), r"fo+\d");
}

#[test]
fn pattern_with_unclosed_group_is_refused() {
    let outcome = Pattern::compile("foo(bar");
    assert!(outcome.is_err());
    let error = outcome.err().unwrap();
    assert!(!error.message.is_empty());
}

#[test]
fn match_ranges_finds_every_occurrence() {
    let pattern = compiled("foo");
    let ranges = pattern.match_ranges(b"foo bar foo");
    assert_eq!(
        ranges,
        vec![MatchRange { start: 0, end: 3 }, MatchRange { start: 8, end: 11 }]
    );
}

#[test]
fn match_ranges_are_leftmost_and_do_not_overlap() {
    let pattern = compiled("aa");
    let ranges = pattern.match_ranges(b"aaaaa");
    assert_eq!(
        ranges,
        vec![MatchRange { start: 0, end: 2 }, MatchRange { start: 2, end: 4 }]
    );
}

#[test]
fn match_ranges_on_bytes_that_are_not_text() {
    let pattern = compiled(r"(?-u)\xff+");
    let ranges = pattern.match_ranges(&[0x00, 0xff, 0xff, 0x10, 0xff]);
    assert_eq!(
        ranges,
        vec![MatchRange { start: 1, end: 3 }, MatchRange { start: 4, end: 5 }]
    );
}

#[test]
fn match_ranges_drops_empty_matches() {
    let pattern = compiled("x*");
    assert_eq!(pattern.match_ranges(b"ab"), Vec::<MatchRange>::new());
    assert_eq!(
        pattern.match_ranges(b"axxb"),
        vec![MatchRange { start: 1, end: 3 }]
    );
}

#[test]
fn match_ranges_of_empty_content_is_empty() {
    let pattern = compiled("foo");
    assert!(pattern.match_ranges(b"").is_empty());
}

#[test]
fn select_ranges_keeps_order_and_drops_empty_pairs() {
    let found = vec![(0usize, 3usize), (4, 4), (8, 11), (11, 11)];
    assert_eq!(
        select_ranges(&found),
        vec![MatchRange { start: 0, end: 3 }, MatchRange { start: 8, end: 11 }]
    );
    assert!(select_ranges(&Vec::new()).is_empty());
}

#[test]
fn complete_without_ranges_draws_no_id() {
    let mut sequencer = Sequencer::new();
    let result: Option<GrepResult<String>> =
        complete("b.txt".to_string(), b"baz".to_vec(), Vec::new(), &mut sequencer);
    assert!(result.is_none());
    assert_eq!(sequencer.count(), 0);
}

#[test]
fn complete_with_ranges_draws_the_next_id() {
    let mut sequencer = Sequencer::new();
    sequencer.issue();
    let ranges = vec![MatchRange { start: 0, end: 3 }];
    let result = complete("a.txt".to_string(), b"foo".to_vec(), ranges.clone(), &mut sequencer);
    assert_eq!(
        result,
        Some(GrepResult {
            path: "a.txt".to_string(),
            content: b"foo".to_vec(),
            ranges,
            sequence_id: 1,
        })
    );
    assert_eq!(sequencer.count(), 2);
}

#[test]
fn search_file_skips_a_file_that_cannot_be_read() {
    let pattern = compiled("foo");
    let mut sequencer = Sequencer::new();
    let result = search_file(&pattern, "gone.txt".to_string(), None, &mut sequencer);
    assert!(result.is_none());
    assert_eq!(sequencer.count(), 0);
}

#[test]
fn search_file_skips_a_file_without_a_match() {
    let pattern = compiled("foo");
    let mut sequencer = Sequencer::new();
    let result = search_file(&pattern, "b.txt".to_string(), Some(b"baz".to_vec()), &mut sequencer);
    assert!(result.is_none());
    assert_eq!(sequencer.count(), 0);
}

#[test]
fn search_file_numbers_results_in_order_of_completion() {
    let pattern = compiled("foo");
    let mut sequencer = Sequencer::new();
    let first = search_file(&pattern, "z".to_string(), Some(b"a foo".to_vec()), &mut sequencer).unwrap();
    let none = search_file(&pattern, "m".to_string(), Some(b"nothing".to_vec()), &mut sequencer);
    let second = search_file(&pattern, "a".to_string(), Some(b"foofoo".to_vec()), &mut sequencer).unwrap();
    assert!(none.is_none());
    assert_eq!(first.sequence_id, 0);
    assert_eq!(first.path, "z");
    assert_eq!(first.content, b"a foo".to_vec());
    assert_eq!(first.ranges, vec![MatchRange { start: 2, end: 5 }]);
    assert_eq!(first.match_count(), 1);
    assert_eq!(second.sequence_id, 1);
    assert_eq!(
        second.ranges,
        vec![MatchRange { start: 0, end: 3 }, MatchRange { start: 3, end: 6 }]
    );
    assert_eq!(second.match_count(), 2);
    assert_eq!(sequencer.count(), 2);
}

#[test]
fn ranges_are_in_order_for_many_patterns() {
    let patterns = [
        "a", "a*", "a+", "(a|b)+", "", "^", "$", r"\b", "ab|b", "(?m)^.*$", r"\w+", "é", r"(?s).",
        "b?", "(?i)AB", r"\s*",
    ];
    let contents: [&[u8]; 8] = [
        b"",
        b"a",
        b"baaab",
        b"ab ab\nba",
        b"aaaa",
        "é ab é".as_bytes(),
        &[0xff, b'a', 0xfe, b'b'],
        b"  a  b  ",
    ];
    for source in patterns.iter() {
        let pattern = compiled(source);
        for content in contents.iter() {
            let ranges = pattern.match_ranges(content);
            let mut floor = 0;
            for range in ranges.iter() {
                assert!(range.start < range.end, "{:?} on {:?}", source, content);
                assert!(range.end <= content.len(), "{:?} on {:?}", source, content);
                assert!(floor <= range.start, "{:?} on {:?}", source, content);
                floor = range.end;
            }
            assert_eq!(ranges, pattern.match_ranges(content));
        }
    }
}

#[test]
fn match_ranges_between_empty_matches() {
    let pattern = compiled("a*");
    assert_eq!(pattern.match_ranges(b"baaab"), vec![MatchRange { start: 1, end: 4 }]);
    let words = compiled(r"\b\w+\b");
    assert_eq!(
        words.match_ranges(b"hi there"),
        vec![MatchRange { start: 0, end: 2 }, MatchRange { start: 3, end: 8 }]
    );
}

#[test]
fn pattern_that_would_be_too_big_is_refused() {
    assert!(Pattern::compile(r"\w{1000}").is_err());
    assert!(Pattern::compile(r"(?-u:\w){1000}").is_ok());
}

#[test]
fn same_text_compiles_to_the_same_matches() {
    let first = compiled(r"f(o+)\b");
    let second = compiled(r"f(o+)\b");
    let content = b"foo fo fooo.foo";
    assert_eq!(first.match_ranges(content), second.match_ranges(content));
    assert_eq!(first.as_str(), second.as_str());
}
