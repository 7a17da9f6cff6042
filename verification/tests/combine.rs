use string_combiner::StringCombiner;

fn chars(inputs: &[&str]) -> Vec<Vec<char>> {
    inputs.iter().map(|input| input.chars().collect()).collect()
}

#[test]
fn test_iter_empty() {
    let inputs: Vec<Vec<char>> = vec![];
    let combiner = StringCombiner::default();
    let expected = None;
    let combined = combiner.concat_strings(inputs);
    assert_eq!(expected, combined.as_deref())
}

#[test]
fn test_iter_single() {
    let inputs = chars(&["Hello World"]);
    let combiner = StringCombiner::default();
    let expected = Some("Hello World");
    let combined = combiner.concat_strings(inputs);
    assert_eq!(expected, combined.as_deref())
}

#[test]
fn test_iter_multiple() {
    let inputs = chars(&["Hello World", "World!"]);
    let combiner = StringCombiner::default();
    let expected = Some("Hello World!");
    let combined = combiner.concat_strings(inputs);
    assert_eq!(expected, combined.as_deref())
}

#[test]
fn test_errorous_inputs_binary() {
    let inputs = chars(&["Hello World", "world!"]);
    let combiner = StringCombiner::default();
    let expected = Some("Hello World!");
    let combined = combiner.concat_strings(inputs);
    assert_eq!(expected, combined.as_deref())
}

#[test]
fn test_errorous_inputs_keep_left() {
    let inputs = chars(&[
        "Hello World",
        "Hello world",
        "world",
        "world!",
        "world! My name is",
        "world! My name is Ho Kim.",
    ]);
    let combiner = StringCombiner::default();
    // "W" and "w" are confirmed alike when they meet, so the newer one stays
    let expected = Some("Hello world! My name is Ho Kim.");
    let combined = combiner.concat_strings(inputs);
    assert_eq!(expected, combined.as_deref())
}

#[test]
fn test_errorous_inputs_shift() {
    let inputs = chars(&[
        "Hello World",
        "Hello world",
        "world",
        "world!",
        "world! My name is",
        "world! My name is Ho Kim.",
    ]);
    let combiner = StringCombiner {
        threshold_deletion_y: 0,
        ..Default::default()
    };
    let expected = Some("Hello world! My name is Ho Kim.");
    let combined = combiner.concat_strings(inputs);
    assert_eq!(expected, combined.as_deref())
}

#[test]
fn test_korean_inputs() {
    let inputs = chars(&[
        "내 어린시절 우연히?",
        "시찰 우연히 들었던 ",
        "우연히 들었던 믿지 못할 한 마디",
    ]);
    let combiner = StringCombiner::default();
    let expected = Some("내 어린시절 우연히 들었던 믿지 못할 한 마디");
    let combined = combiner.concat_strings(inputs);
    assert_eq!(expected, combined.as_deref())
}

#[test]
fn unrelated_inputs_do_not_disturb_with_tight_thresholds() {
    let inputs = chars(&[
        "Hello World",
        "Hello worl d!",
        "내 어린시절 우연히?",
        "시찰 우연히 들었던 ",
        "우연히 들었던 믿지 못할 한 마디",
        "Hello bold",
    ]);
    let combiner =
        StringCombiner { threshold_deletion_x: 2, threshold_deletion_y: 2, ..Default::default() };
    let expected = Some("내 어린시절 우연히 들었던 믿지 못할 한 마디");
    let combined = combiner.concat_strings(inputs);
    assert_eq!(expected, combined.as_deref())
}

#[test]
fn inputs_without_a_common_token() {
    let combiner = StringCombiner::default();
    // a merge along an empty alignment scores lower than the input alone
    assert_eq!(combiner.concat_strings(chars(&["abc", "xyz"])).as_deref(), Some("xyz"));
    assert_eq!(combiner.concat_strings(chars(&["abc", ""])).as_deref(), Some("abc"));
    assert_eq!(combiner.concat_strings(chars(&["", "abc"])).as_deref(), Some("abc"));
    assert_eq!(combiner.concat_strings(chars(&["", ""])).as_deref(), Some(""));
}
