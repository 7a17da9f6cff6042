use string_combiner::alignment::{Alignment, AlignmentMode, AlignmentOperation};
use string_combiner::msa::{AlignmentMergeVisitor, SequenceAlignment};
use string_combiner::pairwise::{align, encode, Scoring};
use string_combiner::pretty::AlignmentPrettyVisitor;

use string_combiner::alignment::AlignmentOperation::{Del, Ins, Match, Subst};

#[test]
fn encode_numbers_the_classes_of_y() {
    let x: Vec<char> = "abcz".chars().collect();
    let y: Vec<char> = "cabca".chars().collect();
    let (sx, sy) = encode(&x, &y).unwrap();
    assert_eq!(sy, vec![0, 1, 2, 0, 1]);
    assert_eq!(sx, vec![1, 2, 0, 3]);
}

#[test]
fn encode_of_empty_sequences() {
    let x: Vec<u8> = vec![];
    let y: Vec<u8> = vec![];
    assert_eq!(encode(&x, &y), Some((vec![], vec![])));
}

#[test]
fn encode_takes_255_classes_and_no_more() {
    let letters = |codes: std::ops::Range<u32>| -> Vec<char> {
        codes.map(|code| char::from_u32(0x4e00 + code).unwrap()).collect()
    };
    let x: Vec<char> = vec![letters(7..8)[0], 'a'];
    let y = letters(0..255);
    let (sx, sy) = encode(&x, &y).unwrap();
    assert_eq!(sy.len(), 255);
    assert_eq!(sy[254], 254);
    assert_eq!(sx, vec![7, 255]);
    let y = letters(0..256);
    assert_eq!(encode(&x, &y), None);
}

#[test]
fn align_semiglobal_finds_x_inside_y() {
    let x = b"ACCGTGGAT";
    let y = b"AAAAACCGTTGAT";
    let scoring = Scoring::new(-5, -1, 1, -1);
    let alignment = align(AlignmentMode::Semiglobal, &x[..], &y[..], &scoring).unwrap();
    assert_eq!(alignment.xstart, 0);
    assert_eq!(alignment.ystart, 4);
    assert_eq!(alignment.xlen, 9);
    assert_eq!(alignment.ylen, 13);
    assert_eq!(alignment.mode, AlignmentMode::Semiglobal);
    assert_eq!(
        alignment.operations,
        vec![Match, Match, Match, Match, Match, Subst, Match, Match, Match]
    );
}

#[test]
fn align_global_spans_both_sequences() {
    let x = b"ACCGTGGAT";
    let y = b"AAAAACCGTTGAT";
    let scoring = Scoring::new(-5, -1, 1, -1);
    let alignment = align(AlignmentMode::Global, &x[..], &y[..], &scoring).unwrap();
    assert_eq!(alignment.xstart, 0);
    assert_eq!(alignment.ystart, 0);
    assert_eq!(alignment.mode, AlignmentMode::Global);
    assert_eq!(
        alignment.operations,
        vec![Del, Del, Del, Del, Match, Match, Match, Match, Match, Subst, Match, Match, Match]
    );
}

#[test]
fn align_local_finds_the_common_part() {
    let x: Vec<char> = "Hello World".chars().collect();
    let y: Vec<char> = "world!".chars().collect();
    let scoring = Scoring::new(-5, -1, 2, -3);
    let alignment = align(AlignmentMode::Local, &x, &y, &scoring).unwrap();
    assert_eq!(alignment.xstart, 7);
    assert_eq!(alignment.ystart, 1);
    assert_eq!(alignment.mode, AlignmentMode::Local);
    assert_eq!(alignment.operations, vec![Match, Match, Match, Match]);
}

#[test]
fn align_has_no_custom_mode() {
    let x = b"ACGT";
    let scoring = Scoring::new(-5, -1, 1, -1);
    assert!(align(AlignmentMode::Custom, &x[..], &x[..], &scoring).is_none());
}

#[test]
fn align_refuses_more_classes_than_bytes() {
    let x: Vec<char> = "abc".chars().collect();
    let y: Vec<char> = (0..300).map(|code| char::from_u32(0x4e00 + code).unwrap()).collect();
    let scoring = Scoring::new(-5, -1, 2, -3);
    assert!(align(AlignmentMode::Local, &x, &y, &scoring).is_none());
    assert!(align(AlignmentMode::Local, &y, &x, &scoring).is_some());
}

#[test]
fn scoring_limits() {
    let scoring = Scoring::new(-5, -1, 2, -3);
    assert!(scoring.is_wf());
    assert!(scoring.can_align(0, 0));
    assert!(scoring.can_align(1000, 1000));
    // 5 * (107374180 + 2) = 536870910 fits, one token more does not
    assert!(scoring.can_align(107374180, 0));
    assert!(!scoring.can_align(107374181, 0));
    assert!(!Scoring::new(1, -1, 2, -3).is_wf());
    assert!(!Scoring::new(-1, 1, 2, -3).is_wf());
    assert!(!Scoring::new(-1, -1, -2, -3).is_wf());
    assert!(!Scoring::new(-1, -1, 2, 3).is_wf());
}

#[test]
fn fits_tells_whether_the_operations_find_their_tokens() {
    let trace = |mode, xstart, ystart, operations: Vec<AlignmentOperation>| Alignment {
        xstart,
        ystart,
        xlen: 3,
        ylen: 3,
        mode,
        operations,
    };
    assert!(trace(AlignmentMode::Local, 0, 0, vec![Match, Match, Match]).fits(3, 3));
    assert!(!trace(AlignmentMode::Local, 0, 0, vec![Match, Match, Match, Match]).fits(3, 3));
    assert!(!trace(AlignmentMode::Local, 1, 0, vec![Match, Match, Match]).fits(3, 3));
    assert!(trace(AlignmentMode::Custom, 1, 0, vec![Match, Match, Match]).fits(3, 3));
    assert!(trace(AlignmentMode::Local, 0, 0, vec![Ins, Ins, Ins, Del, Del, Del]).fits(3, 3));
    assert!(!trace(AlignmentMode::Local, 0, 0, vec![Del, Del, Del, Del]).fits(3, 3));
    assert!(!trace(AlignmentMode::Local, 0, 0, vec![Subst]).fits(3, 0));
    assert!(trace(AlignmentMode::Local, 9, 9, vec![]).fits(3, 3));
    let clipped = trace(
        AlignmentMode::Custom,
        0,
        0,
        vec![AlignmentOperation::Xclip(2), Match, AlignmentOperation::Yclip(usize::MAX)],
    );
    assert!(clipped.fits(3, 3));
    let clipped = trace(AlignmentMode::Custom, 0, 0, vec![AlignmentOperation::Xclip(9), Match]);
    assert!(!clipped.fits(3, 3));
}

#[test]
fn pretty_visitor_draws_three_rows() {
    let x = b"ACCGTGGAT";
    let y = b"AAAAACCGTTGAT";
    let scoring = Scoring::new(-5, -1, 1, -1);
    let alignment = align(AlignmentMode::Semiglobal, &x[..], &y[..], &scoring).unwrap();
    assert!(alignment.fits(x.len(), y.len()));
    let drawn = alignment.reduce(AlignmentPrettyVisitor::new(100), &x[..], &y[..]);
    assert_eq!(drawn, "    ACCGTGGAT\n    |||||\\|||\nAAAAACCGTTGAT\n\n\n");
    let drawn = alignment.reduce(AlignmentPrettyVisitor::new(5), &x[..], &y[..]);
    assert_eq!(
        drawn,
        "    A\n    |\nAAAAA\n\n\nCCGTG\n||||\\\nCCGTT\n\n\nGAT\n|||\nGAT\n\n\n"
    );
}

#[test]
fn pretty_visitor_marks_gaps() {
    let x = b"abc";
    let y = b"xyz";
    let alignment = Alignment {
        xstart: 0,
        ystart: 0,
        xlen: 3,
        ylen: 3,
        mode: AlignmentMode::Global,
        operations: vec![Ins, Del, Subst, Match],
    };
    assert!(alignment.fits(3, 3));
    let drawn = alignment.reduce(AlignmentPrettyVisitor::new(80), &x[..], &y[..]);
    assert_eq!(drawn, "a-bc\n+x\\|\n-xyz\n\n\n");
}

#[test]
fn pretty_visitor_of_nothing() {
    let alignment = Alignment {
        xstart: 0,
        ystart: 0,
        xlen: 0,
        ylen: 0,
        mode: AlignmentMode::Global,
        operations: vec![],
    };
    let nothing: [u8; 0] = [];
    let drawn = alignment.reduce(AlignmentPrettyVisitor::new(80), &nothing[..], &nothing[..]);
    assert_eq!(drawn, "");
}

#[test]
fn merge_visitor_keeps_what_one_sequence_has_alone() {
    let x: Vec<char> = "Hello World".chars().collect();
    let y: Vec<char> = "world!".chars().collect();
    let alignment = Alignment {
        xstart: 6,
        ystart: 0,
        xlen: 11,
        ylen: 6,
        mode: AlignmentMode::Local,
        operations: vec![Subst, Match, Match, Match, Match],
    };
    assert!(alignment.fits(x.len(), y.len()));
    let merged = alignment.reduce(AlignmentMergeVisitor::default(), &x, &y);
    assert_eq!(merged.iter().collect::<String>(), "Hello world!");
}

#[test]
fn custom_trace_has_no_implicit_ends_and_clips_from_the_start() {
    let x: Vec<char> = "abcde".chars().collect();
    let y: Vec<char> = "vwxyz".chars().collect();
    let alignment = Alignment {
        xstart: 3,
        ystart: 3,
        xlen: 5,
        ylen: 5,
        mode: AlignmentMode::Custom,
        operations: vec![
            AlignmentOperation::Xclip(2),
            Match,
            AlignmentOperation::Yclip(100),
            AlignmentOperation::Xclip(1),
        ],
    };
    assert!(alignment.fits(x.len(), y.len()));
    let merged = alignment.reduce(AlignmentMergeVisitor::default(), &x, &y);
    assert_eq!(merged.iter().collect::<String>(), "abcvwxyza");
}
