use string_combiner::alignment::AlignmentOperation::{Del, Ins, Match, Subst};
use string_combiner::alignment::{Alignment, AlignmentMode, AlignmentOperation};
use string_combiner::msa::{AlignedSequence, AlignedToken, AlignmentVisitor, SequenceAlignment};
use string_combiner::token::{AlignmentTokenMergeVisitor, Token, TokenData};
use std::time::Duration;

fn token(count: u64, data: char) -> AlignedToken<char> {
    AlignedToken { count, data }
}

fn tokens(text: &str, count: u64) -> Vec<AlignedToken<char>> {
    text.chars().map(|data| token(count, data)).collect()
}

fn shown(seq: &AlignedSequence<char>) -> Vec<(char, u64)> {
    seq.value.iter().map(|token| (token.data, token.count)).collect()
}

#[test]
fn a_fresh_token_is_confirmed_once() {
    let token = AlignedToken::new('a');
    assert_eq!(token.count, 1);
    assert_eq!(token.data, 'a');
}

#[test]
fn tokens_are_the_same_by_their_payload() {
    assert!(token(1, 'a').is_same(&token(7, 'a')));
    assert!(!token(1, 'a').is_same(&token(1, 'b')));
    assert!('a'.is_same(&'a'));
    assert!(!1u8.is_same(&2u8));
    let heard = |id, start| TokenData {
        id,
        t0: Duration::from_millis(start),
        t1: Duration::from_millis(start + 10),
    };
    assert!(heard(3, 0).is_same(&heard(3, 500)));
    assert!(!heard(3, 0).is_same(&heard(4, 0)));
}

#[test]
fn from_iter_makes_fresh_tokens() {
    let seq = AlignedSequence::from_iter(vec!['a', 'b']);
    assert_eq!(seq.num_deleted_x, 0);
    assert_eq!(seq.num_deleted_y, 0);
    assert_eq!(shown(&seq), vec![('a', 1), ('b', 1)]);
    let empty = AlignedSequence::<char>::from_iter(vec![]);
    assert!(empty.value.is_empty());
}

#[test]
fn total_matched_adds_the_counts() {
    let seq = AlignedSequence { num_deleted_x: 0, num_deleted_y: 0, value: tokens("abc", 4) };
    assert_eq!(seq.total_matched(), 12);
    let empty = AlignedSequence::<char>::from_iter(vec![]);
    assert_eq!(empty.total_matched(), 0);
    let large = AlignedSequence {
        num_deleted_x: 0,
        num_deleted_y: 0,
        value: tokens("ab", u64::MAX),
    };
    assert_eq!(large.total_matched(), 2 * (u64::MAX as u128));
}

#[test]
fn join_appends_and_adds_the_counters() {
    let a = AlignedSequence { num_deleted_x: 1, num_deleted_y: 2, value: tokens("ab", 3) };
    let b = AlignedSequence { num_deleted_x: 10, num_deleted_y: 20, value: tokens("c", 5) };
    let joined = a.join(&b, None);
    assert_eq!(joined.num_deleted_x, 11);
    assert_eq!(joined.num_deleted_y, 22);
    assert_eq!(shown(&joined), vec![('a', 3), ('b', 3), ('c', 5)]);
    let joined = a.join(&b, Some(&[' ', '-'][..]));
    assert_eq!(joined.num_deleted_x, 11);
    assert_eq!(joined.num_deleted_y, 22);
    assert_eq!(shown(&joined), vec![('a', 3), ('b', 3), (' ', 1), ('-', 1), ('c', 5)]);
    assert!(joined.num_deleted_x >= a.num_deleted_x && joined.num_deleted_x >= b.num_deleted_x);
    assert!(joined.num_deleted_y >= a.num_deleted_y && joined.num_deleted_y >= b.num_deleted_y);
}

#[test]
fn a_match_confirms_once_more_than_the_more_confirmed() {
    let mut visitor = AlignmentTokenMergeVisitor::default();
    visitor.visit_match(&token(2, 'a'), &token(5, 'A'));
    visitor.visit_match(&token(7, 'b'), &token(1, 'B'));
    visitor.visit_match(&token(1, 'c'), &token(1, 'C'));
    let merged = visitor.finish();
    assert_eq!(shown(&merged), vec![('a', 6), ('b', 8), ('c', 2)]);
    assert_eq!((merged.num_deleted_x, merged.num_deleted_y), (0, 0));
}

#[test]
fn a_substitution_keeps_the_more_confirmed_and_y_where_they_are_alike() {
    let mut visitor = AlignmentTokenMergeVisitor::default();
    visitor.visit_subst(&token(2, 'x'), &token(2, 'y'));
    visitor.visit_subst(&token(3, 'x'), &token(2, 'y'));
    let merged = visitor.clone().finish();
    assert_eq!(shown(&merged), vec![('y', 2), ('x', 3)]);
    assert_eq!((merged.num_deleted_x, merged.num_deleted_y), (1, 1));
    visitor.visit_subst(&token(2, 'x'), &token(3, 'y'));
    let merged = visitor.finish();
    assert_eq!(shown(&merged), vec![('y', 2), ('x', 3), ('y', 3)]);
    assert_eq!((merged.num_deleted_x, merged.num_deleted_y), (2, 1));
}

#[test]
fn of_two_fresh_tokens_a_substitution_keeps_that_of_y() {
    let mut visitor = AlignmentTokenMergeVisitor::default();
    visitor.visit_subst(&AlignedToken::new('a'), &AlignedToken::new('b'));
    let merged = visitor.finish();
    assert_eq!(shown(&merged), vec![('b', 1)]);
    assert_eq!((merged.num_deleted_x, merged.num_deleted_y), (1, 0));
}

#[test]
fn the_ends_of_x_and_of_y_are_treated_the_other_way_round() {
    let mut visitor = AlignmentTokenMergeVisitor::default();
    visitor.visit_prefix_x(&tokens("ab", 2));
    visitor.visit_prefix_y(&tokens("cde", 3));
    visitor.visit_ins(&token(4, 'f'));
    visitor.visit_del(&token(5, 'g'));
    visitor.visit_suffix_x(&tokens("hijk", 6));
    visitor.visit_suffix_y(&tokens("l", 7));
    visitor.visit_xclip(&tokens("m", 8));
    visitor.visit_yclip(&tokens("no", 9));
    let merged = visitor.finish();
    assert_eq!(shown(&merged), vec![('a', 2), ('b', 2), ('f', 4), ('l', 7), ('m', 8)]);
    assert_eq!(merged.num_deleted_x, 5);
    assert_eq!(merged.num_deleted_y, 5);
}

#[test]
fn a_token_that_x_lacks_is_kept_where_deletion_is_not_allowed() {
    let mut visitor = AlignmentTokenMergeVisitor::new(false);
    visitor.visit_ins(&token(4, 'f'));
    visitor.visit_del(&token(5, 'g'));
    let merged = visitor.finish();
    assert_eq!(shown(&merged), vec![('f', 4), ('g', 5)]);
    assert_eq!((merged.num_deleted_x, merged.num_deleted_y), (0, 0));
}

#[test]
fn merging_along_a_trace() {
    let x = tokens("Hello World", 1);
    let y = tokens("world!", 1);
    let alignment = Alignment {
        xstart: 7,
        ystart: 1,
        xlen: 11,
        ylen: 6,
        mode: AlignmentMode::Local,
        operations: vec![Match, Match, Match, Match],
    };
    let visitor = AlignmentTokenMergeVisitor::default();
    assert!(visitor.can_merge(&alignment, &x, &y));
    let merged = alignment.reduce(visitor, &x, &y);
    let text: String = merged.value.iter().map(|token| token.data).collect();
    assert_eq!(text, "Hello World!");
    let counts: Vec<u64> = merged.value.iter().map(|token| token.count).collect();
    assert_eq!(counts, vec![1, 1, 1, 1, 1, 1, 1, 2, 2, 2, 2, 1]);
    assert_eq!((merged.num_deleted_x, merged.num_deleted_y), (0, 1));
    assert!(merged.value.iter().all(|token| token.count >= 1));
}

#[test]
fn deletion_counters_count_what_was_dropped() {
    let x = tokens("abcdef", 2);
    let y = tokens("uvwxyz", 1);
    let alignment = Alignment {
        xstart: 1,
        ystart: 2,
        xlen: 6,
        ylen: 6,
        mode: AlignmentMode::Semiglobal,
        operations: vec![Subst, Del, Ins, Match],
    };
    let visitor = AlignmentTokenMergeVisitor::default();
    assert!(visitor.can_merge(&alignment, &x, &y));
    let merged = alignment.reduce(visitor, &x, &y);
    // "a" stays before the region, "b" replaces "w", "x" is set against a gap and dropped,
    // "c" faces a gap and stays, "d" is confirmed by "y", "ef" goes and "z" comes;
    // counted for x: the dropped "x" and "ef"; for y: "uv" and "w"
    assert_eq!(shown(&merged), vec![('a', 2), ('b', 2), ('c', 2), ('d', 3), ('z', 1)]);
    assert_eq!(merged.num_deleted_x, 3);
    assert_eq!(merged.num_deleted_y, 3);
}

#[test]
fn can_merge_refuses_what_would_overflow_or_does_not_fit() {
    let x = tokens("ab", 1);
    let y = tokens("ab", 1);
    let trace = |operations: Vec<AlignmentOperation>| Alignment {
        xstart: 0,
        ystart: 0,
        xlen: 2,
        ylen: 2,
        mode: AlignmentMode::Global,
        operations,
    };
    let visitor = AlignmentTokenMergeVisitor::default();
    assert!(visitor.can_merge(&trace(vec![Match, Match]), &x, &y));
    assert!(!visitor.can_merge(&trace(vec![Match, Match, Match]), &x, &y));
    let full = tokens("ab", u64::MAX);
    assert!(!visitor.can_merge(&trace(vec![Match, Match]), &full, &y));
    assert!(!visitor.can_merge(&trace(vec![Match, Match]), &x, &full));
    assert!(visitor.can_merge(&trace(vec![Subst, Subst]), &full, &y));
    let mut counted = AlignmentTokenMergeVisitor::default();
    let many = vec![token(1, 'a'); 1000];
    counted.visit_suffix_x(&many);
    assert!(counted.can_merge(&trace(vec![Match, Match]), &x, &y));
}
