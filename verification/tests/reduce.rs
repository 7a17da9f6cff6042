use std::time::Duration;
use string_combiner::greedy::{
    choose_state, score_at_least, GreedyMultipleSequenceAligner, GreedyMultipleSequenceAlignerItem,
    MatchFn, ScoreFn, State,
};
use string_combiner::linear::LinearMultipleSequenceAligner;
use string_combiner::msa::{
    AlignedSequence, AlignedSequenceView, AlignedToken, AlignmentMergeVisitor,
    MultipleSequenceAlignment, SequenceMatch,
};
use string_combiner::pairwise::Scoring;
use string_combiner::segment::{Segment, SegmentKey};
use string_combiner::token::{AlignmentTokenMergeVisitor, TokenData};
use string_combiner::{AlwaysMatched, DeletionThreshold, OverlapMatch, StringCombiner};

fn sequence(text: &str) -> AlignedSequence<char> {
    AlignedSequence::from_iter(text.chars().collect())
}

fn text(seq: &AlignedSequence<char>) -> String {
    seq.value.iter().map(|token| token.data).collect()
}

fn chars(inputs: &[&str]) -> Vec<Vec<char>> {
    inputs.iter().map(|input| input.chars().collect()).collect()
}

struct NeverMatched;

impl MatchFn<AlignedSequence<char>> for NeverMatched {
    // states the decision for the proofs of the library; never called
    fn decides(
        &self,
        _a: AlignedSequenceView<char>,
        _b: AlignedSequenceView<char>,
    ) -> SequenceMatch<AlignedSequenceView<char>> {
        unreachable!()
    }

    fn call(
        &self,
        _a: &AlignedSequence<char>,
        _b: &AlignedSequence<char>,
    ) -> SequenceMatch<AlignedSequence<char>> {
        SequenceMatch::Unmatched
    }
}

struct Glue;

impl MatchFn<AlignedSequence<char>> for Glue {
    // states the decision for the proofs of the library; never called
    fn decides(
        &self,
        _a: AlignedSequenceView<char>,
        _b: AlignedSequenceView<char>,
    ) -> SequenceMatch<AlignedSequenceView<char>> {
        unreachable!()
    }

    fn call(
        &self,
        a: &AlignedSequence<char>,
        b: &AlignedSequence<char>,
    ) -> SequenceMatch<AlignedSequence<char>> {
        SequenceMatch::Custom(a.join(b, Some(&['+'][..])))
    }
}

struct ByLength;

impl ScoreFn<AlignedSequence<char>> for ByLength {
    // states the score for the proofs of the library; never called
    fn scores(&self, _a: AlignedSequenceView<char>) -> Option<u128> {
        unreachable!()
    }

    fn call(&self, a: &AlignedSequence<char>) -> Option<u128> {
        if a.value.is_empty() {
            None
        } else {
            Some(a.value.len() as u128)
        }
    }
}

struct Rejecting;

impl ScoreFn<AlignedSequence<char>> for Rejecting {
    // states the score for the proofs of the library; never called
    fn scores(&self, _a: AlignedSequenceView<char>) -> Option<u128> {
        unreachable!()
    }

    fn call(&self, _a: &AlignedSequence<char>) -> Option<u128> {
        None
    }
}

fn scoring() -> Scoring {
    Scoring::new(-5, -1, 2, -3)
}

#[test]
fn no_input_gives_nothing() {
    let aligner = GreedyMultipleSequenceAligner::new(AlwaysMatched, ByLength);
    let reduced = aligner.reduce_all(&scoring(), AlignmentTokenMergeVisitor::default(), vec![]);
    assert!(reduced.is_none());
    let combiner = StringCombiner::default();
    assert!(combiner.concat_with::<AlignedSequence<char>, char, _>(vec![], AlwaysMatched).is_none());
    assert!(combiner.concat_segments::<char>(vec![]).is_none());
    assert!(combiner.concat_segments_raw::<char>(vec![]).is_none());
}

#[test]
fn one_input_comes_back_as_it_is() {
    let combiner = StringCombiner::default();
    let combined = combiner.concat_with(vec![sequence("Hello World")], AlwaysMatched).unwrap();
    assert_eq!(text(&combined), "Hello World");
    assert_eq!((combined.num_deleted_x, combined.num_deleted_y), (0, 0));
    assert!(combined.value.iter().all(|token| token.count == 1));
    // also where it is rejected
    let aligner = GreedyMultipleSequenceAligner::new(AlwaysMatched, Rejecting);
    let reduced = aligner
        .reduce_all(&scoring(), AlignmentTokenMergeVisitor::default(), vec![sequence("abc")])
        .unwrap();
    assert_eq!(text(&reduced), "abc");
}

#[test]
fn two_runs_give_the_same() {
    let inputs = [
        "Hello World",
        "Hello world",
        "world",
        "world!",
        "world! My name is",
        "world! My name is Ho Kim.",
    ];
    let combiner = StringCombiner::default();
    let first = combiner.concat_strings(chars(&inputs));
    let second = combiner.concat_strings(chars(&inputs));
    assert_eq!(first, second);
    let raw = |inputs: &[&str]| {
        let inputs = inputs.iter().map(|input| sequence(input)).collect();
        let combined = combiner.concat_with(inputs, AlwaysMatched).unwrap();
        let tokens: Vec<(char, u64)> =
            combined.value.iter().map(|token| (token.data, token.count)).collect();
        (tokens, combined.num_deleted_x, combined.num_deleted_y)
    };
    assert_eq!(raw(&inputs), raw(&inputs));
}

#[test]
fn unmatched_pairs_leave_the_inputs_alone() {
    let aligner = GreedyMultipleSequenceAligner::new(NeverMatched, ByLength);
    let inputs = vec![sequence("ab"), sequence("wxyz"), sequence("abcd"), sequence("c")];
    let reduced =
        aligner.reduce_all(&scoring(), AlignmentTokenMergeVisitor::default(), inputs).unwrap();
    // the longest, and of the two longest the later one
    assert_eq!(text(&reduced), "abcd");
}

#[test]
fn a_custom_candidate_is_taken_without_alignment() {
    let aligner = GreedyMultipleSequenceAligner::new(Glue, ByLength);
    let inputs = vec![sequence("ab"), sequence("cd"), sequence("e")];
    let reduced =
        aligner.reduce_all(&scoring(), AlignmentTokenMergeVisitor::default(), inputs).unwrap();
    // table: "ab", "ab+cd", then of "ab+e" and "ab+cd+e" the higher
    assert_eq!(text(&reduced), "ab+cd+e");
}

#[test]
fn a_candidate_replaces_an_input_without_score() {
    let aligner = GreedyMultipleSequenceAligner::new(Glue, ByLength);
    let inputs = vec![sequence("ab"), sequence("")];
    let state = aligner.next_state(
        &scoring(),
        &AlignmentTokenMergeVisitor::default(),
        &vec![State { seq: sequence("ab"), score: Some(2) }],
        sequence(""),
    );
    assert_eq!(text(&state.seq), "ab+");
    assert_eq!(state.score, Some(3));
    let reduced =
        aligner.reduce_all(&scoring(), AlignmentTokenMergeVisitor::default(), inputs).unwrap();
    assert_eq!(text(&reduced), "ab+");
}

#[test]
fn where_all_is_rejected_the_last_input_is_handed_out() {
    let aligner = GreedyMultipleSequenceAligner::new(AlwaysMatched, Rejecting);
    let inputs = vec![sequence("abc"), sequence("bcd"), sequence("cde")];
    let reduced =
        aligner.reduce_all(&scoring(), AlignmentTokenMergeVisitor::default(), inputs).unwrap();
    assert_eq!(text(&reduced), "cde");
}

#[test]
fn of_equal_candidates_the_later_row_wins() {
    let aligner = GreedyMultipleSequenceAligner::new(Glue, ByLength);
    let table = vec![
        State { seq: sequence("ab"), score: Some(2) },
        State { seq: sequence("cd"), score: Some(2) },
        State { seq: sequence("e"), score: Some(1) },
    ];
    let visitor = AlignmentTokenMergeVisitor::default();
    let best = aligner.best_candidate(&scoring(), &visitor, &table, &sequence("z")).unwrap();
    assert_eq!(text(&best.seq), "cd+z");
    assert_eq!(best.score, Some(4));
    let none = aligner.best_candidate(&scoring(), &visitor, &vec![], &sequence("z"));
    assert!(none.is_none());
}

#[test]
fn the_last_of_the_highest_entries_is_chosen() {
    let table = vec![
        State { seq: 'a', score: Some(3) },
        State { seq: 'b', score: None },
        State { seq: 'c', score: Some(3) },
        State { seq: 'd', score: Some(1) },
    ];
    assert_eq!(choose_state(table).unwrap().seq, 'c');
    let table = vec![State { seq: 'a', score: None }, State { seq: 'b', score: None }];
    assert_eq!(choose_state(table).unwrap().seq, 'b');
    assert!(choose_state::<char>(vec![]).is_none());
    assert!(score_at_least(&None, &None));
    assert!(score_at_least(&Some(0), &None));
    assert!(!score_at_least(&None, &Some(0)));
    assert!(score_at_least(&Some(2), &Some(2)));
    assert!(!score_at_least(&Some(1), &Some(2)));
}

#[test]
fn the_threshold_rejects_what_dropped_too_much() {
    let score_fn: DeletionThreshold<char> = DeletionThreshold {
        _token: std::marker::PhantomData,
        threshold_deletion_x: 2,
        threshold_deletion_y: 3,
    };
    let mut seq = sequence("abc");
    assert_eq!(ScoreFn::call(&score_fn, &seq), Some(3));
    seq.num_deleted_x = 2;
    seq.num_deleted_y = 3;
    seq.value[1].count = 5;
    assert_eq!(ScoreFn::call(&score_fn, &seq), Some(7));
    seq.num_deleted_x = 3;
    assert_eq!(ScoreFn::call(&score_fn, &seq), None);
    seq.num_deleted_x = 0;
    seq.num_deleted_y = 4;
    assert_eq!(ScoreFn::call(&score_fn, &seq), None);
}

#[test]
fn a_candidate_is_merged_along_the_local_alignment() {
    let aligner = GreedyMultipleSequenceAligner::new(AlwaysMatched, ByLength);
    let visitor = AlignmentTokenMergeVisitor::default();
    let found = aligner
        .candidate(&scoring(), &visitor, &sequence("Hello World"), &sequence("World!"))
        .unwrap();
    assert_eq!(text(&found.seq), "Hello World!");
    assert_eq!(found.score, Some(12));
    assert_eq!((found.seq.num_deleted_x, found.seq.num_deleted_y), (0, 0));
    let counts: Vec<u64> = found.seq.value.iter().map(|token| token.count).collect();
    assert_eq!(counts, vec![1, 1, 1, 1, 1, 1, 2, 2, 2, 2, 2, 1]);
}

#[test]
fn strings_of_bytes() {
    let inputs: Vec<Vec<u8>> =
        vec![b"Hello World".to_vec(), "World! \u{c6b0}\u{c5f0}".as_bytes().to_vec()];
    let combiner = StringCombiner::default();
    let combined = combiner.concat_strings(inputs);
    assert_eq!(combined.as_deref(), Some("Hello World! \u{c6b0}\u{c5f0}"));
    let broken: Vec<Vec<u8>> = vec![vec![b'a', 0xff, b'b']];
    assert_eq!(combiner.concat_strings(broken).as_deref(), Some("a\u{fffd}b"));
}

#[test]
fn to_string_shows_the_payloads() {
    assert_eq!(sequence("Hello").to_string(), "Hello");
    assert_eq!(AlignedSequence::from_iter(b"Hello".to_vec()).to_string(), "Hello");
    assert_eq!(sequence("").to_string(), "");
}

#[test]
fn linear_reducer_keeps_the_new_where_they_differ() {
    let aligner = LinearMultipleSequenceAligner;
    let reduced = aligner
        .reduce_all(&scoring(), AlignmentMergeVisitor::default(), chars(&["ACCGTGGAT"]))
        .unwrap();
    assert_eq!(reduced.iter().collect::<String>(), "ACCGTGGAT");
    let scoring = Scoring::new(-5, -1, 1, -1);
    let reduced = aligner
        .reduce_all(
            &scoring,
            AlignmentMergeVisitor::default(),
            chars(&["ACCGTGGAT", "AAAAACCGTTGAT"]),
        )
        .unwrap();
    assert_eq!(reduced.iter().collect::<String>(), "AAAAACCGTTGAT");
    let merged = aligner
        .merge(
            &scoring,
            &AlignmentMergeVisitor::default(),
            &chars(&["ACCGTGGAT"])[0],
            &chars(&["AAAAACCGTTGAT"])[0],
        )
        .unwrap();
    assert_eq!(merged.iter().collect::<String>(), "AAAAACCGTTGAT");
    let nothing: Option<Vec<char>> =
        aligner.reduce_all(&scoring, AlignmentMergeVisitor::default(), vec![]);
    assert!(nothing.is_none());
}

#[test]
fn linear_reducer_gives_up_where_a_pair_cannot_be_aligned() {
    let aligner = LinearMultipleSequenceAligner;
    let many: Vec<char> = (0..300).map(|code| char::from_u32(0x4e00 + code).unwrap()).collect();
    let inputs = vec!["abc".chars().collect(), many, "abc".chars().collect()];
    let reduced = aligner.reduce_all(&scoring(), AlignmentMergeVisitor::default(), inputs);
    assert!(reduced.is_none());
}

fn key(t0: u64, t1: u64) -> SegmentKey {
    SegmentKey { t0: Duration::from_millis(t0), t1: Duration::from_millis(t1) }
}

fn segment(t0: u64, t1: u64, text: &str) -> Segment<SegmentKey, Vec<char>> {
    Segment { key: key(t0, t1), value: text.chars().collect() }
}

#[test]
fn key_of_a_segment() {
    assert_eq!(key(200, 1500).duration(), Duration::from_millis(1300));
    assert_eq!(key(7, 7).duration(), Duration::ZERO);
    assert_eq!(key(200, 1500).spanning(&key(100, 900)), key(100, 1500));
    assert_eq!(key(100, 900).spanning(&key(200, 1500)), key(100, 1500));
    assert!(key(0, 10).ends_after(&key(9, 20)));
    assert!(!key(0, 10).ends_after(&key(10, 20)));
}

#[test]
fn a_segment_is_built_over_both_intervals() {
    let raw = |t0, t1, text: &str| Segment { key: key(t0, t1), value: sequence(text) };
    let built = GreedyMultipleSequenceAlignerItem::build(
        &raw(100, 900, "ab"),
        &raw(50, 700, "cd"),
        sequence("merged"),
    );
    assert_eq!(built.key, key(50, 900));
    assert_eq!(text(&built.value), "merged");
    assert_eq!(text(raw(0, 1, "ab").as_sequence()), "ab");
}

#[test]
fn overlapping_segments_are_aligned() {
    let combiner = StringCombiner::default();
    let inputs = vec![segment(0, 1000, "Hello World"), segment(600, 1400, "World!")];
    let combined = combiner.concat_segments(inputs).unwrap();
    assert_eq!(combined.key, key(0, 1400));
    assert_eq!(combined.value.iter().collect::<String>(), "Hello World!");
}

#[test]
fn segments_apart_are_joined() {
    let combiner = StringCombiner::default();
    let inputs = vec![segment(0, 1000, "Hello World"), segment(1000, 1400, "World!")];
    let combined = combiner.concat_segments(inputs).unwrap();
    assert_eq!(combined.key, key(0, 1400));
    assert_eq!(combined.value.iter().collect::<String>(), "Hello WorldWorld!");
    let inputs = vec![segment(0, 1000, "Hello World"), segment(1000, 1400, "World!")];
    let raw = combiner.concat_segments_raw(inputs).unwrap();
    assert_eq!(raw.key, key(0, 1400));
    assert_eq!((raw.value.num_deleted_x, raw.value.num_deleted_y), (0, 0));
    assert!(raw.value.value.iter().all(|token| token.count == 1));
}

#[test]
fn overlap_decides_between_alignment_and_joining() {
    let raw = |t0, t1, text: &str| Segment { key: key(t0, t1), value: sequence(text) };
    let decision = MatchFn::call(&OverlapMatch, &raw(0, 10, "ab"), &raw(5, 20, "cd"));
    assert!(matches!(decision, SequenceMatch::Matched));
    let decision = MatchFn::call(&OverlapMatch, &raw(0, 10, "ab"), &raw(15, 20, "cd"));
    match decision {
        SequenceMatch::Custom(joined) => {
            assert_eq!(joined.key, key(0, 20));
            assert_eq!(text(&joined.value), "abcd");
        }
        _ => panic!("segments apart are joined"),
    }
    let mut full = raw(0, 10, "ab");
    full.value.num_deleted_x = usize::MAX;
    let mut one = raw(15, 20, "cd");
    one.value.num_deleted_x = 1;
    assert!(matches!(MatchFn::call(&OverlapMatch, &full, &one), SequenceMatch::Unmatched));
}

#[test]
fn checked_duration_tells_a_key_that_ends_before_it_begins() {
    assert_eq!(key(200, 1500).checked_duration(), Some(Duration::from_millis(1300)));
    assert_eq!(key(1500, 200).checked_duration(), None);
}

#[test]
fn a_segment_shows_its_sequence() {
    let segment = Segment { key: key(0, 1), value: sequence("Hello") };
    assert_eq!(segment.to_string(), "Hello");
}

#[test]
fn tokens_are_equal_by_their_payload() {
    assert!(AlignedToken { count: 1, data: 'a' } == AlignedToken { count: 9, data: 'a' });
    assert!(AlignedToken { count: 1, data: 'a' } != AlignedToken { count: 1, data: 'b' });
    let heard = |id, start| TokenData {
        id,
        t0: Duration::from_millis(start),
        t1: Duration::from_millis(start + 10),
    };
    assert!(heard(3, 0) == heard(3, 500));
    assert!(heard(3, 0) != heard(4, 0));
}

#[test]
fn segments_of_recognised_tokens() {
    let heard = |id: i32| TokenData {
        id,
        t0: Duration::from_millis(10 * id as u64),
        t1: Duration::from_millis(10 * id as u64 + 10),
    };
    let segment = |t0, t1, ids: &[i32]| Segment {
        key: key(t0, t1),
        value: ids.iter().map(|id| heard(*id)).collect::<Vec<TokenData>>(),
    };
    let combiner = StringCombiner::default();
    let inputs = vec![segment(0, 50, &[1, 2, 3, 4, 5]), segment(30, 80, &[4, 5, 6, 7])];
    let combined = combiner.concat_segments(inputs).unwrap();
    assert_eq!(combined.key, key(0, 80));
    let ids: Vec<i32> = combined.value.iter().map(|token| token.id).collect();
    assert_eq!(ids, vec![1, 2, 3, 4, 5, 6, 7]);
}
