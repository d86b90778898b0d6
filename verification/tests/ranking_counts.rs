use blvflag::ranking::{error_line_filter, script_features, token_overlap, RunRecord};

fn record(s: &str) -> RunRecord {
    RunRecord { run_contents: s.to_string() }
}

#[test]
fn overlap_counts_shared_tokens() {
    assert_eq!(token_overlap("NameError: x is not defined", "NameError: y is not defined"), (4, 5));
    assert_eq!(token_overlap("a a b", "a"), (2, 3));
    assert_eq!(token_overlap("", "a"), (0, 0));
    assert_eq!(token_overlap("  a\tb\n", "b"), (1, 2));
}

#[test]
fn line_overlaps_itself_fully() {
    let line = "TypeError: unsupported operand";
    assert_eq!(token_overlap(line, line), (3, 3));
}

#[test]
fn filter_keeps_similar_cycles() {
    let current = "ValueError: bad value here now";
    let cycles = vec![
        vec![record("ValueError: bad thing"), record("ok")],
        vec![record("ValueError: bad value here now")],
        vec![record("a"), record("zzz"), record("fixed")],
        vec![record("x"), record("ValueError: other"), record("fixed")],
    ];
    let kept = error_line_filter(current, cycles);
    assert_eq!(kept.len(), 1);
    assert_eq!(kept[0][0].run_contents, "ValueError: bad thing");
}

#[test]
fn filter_threshold_is_strictly_above_a_fifth() {
    let current = "a b c d e";
    let at_fifth = vec![vec![record("a"), record("end")]];
    assert!(error_line_filter(current, at_fifth).is_empty());
    let above = vec![vec![record("a b"), record("end")]];
    assert_eq!(error_line_filter(current, above).len(), 1);
}

#[test]
fn filter_of_empty_line_keeps_nothing() {
    let cycles = vec![vec![record(""), record("end")]];
    assert!(error_line_filter("", cycles).is_empty());
}

#[test]
fn features_of_a_script() {
    let f = script_features("def f():\n    if x:\n        return 1\ndef g(): pass");
    assert_eq!(f.lines, 4);
    assert_eq!(f.defs, 2);
    assert_eq!(f.ifs, 1);
    assert_eq!(f.bytes, 49);
}

#[test]
fn features_count_bytes_and_lines() {
    let f = script_features("é\n");
    assert_eq!(f.lines, 1);
    assert_eq!(f.bytes, 3);
    let empty = script_features("");
    assert_eq!((empty.lines, empty.defs, empty.ifs, empty.bytes), (0, 0, 0, 0));
    assert_eq!(script_features("\n\n").lines, 2);
}

#[test]
fn same_error_line_cycle_is_kept() {
    let line = "IndexError: list index out of range";
    let cycles = vec![vec![record(line), record("fixed")]];
    assert_eq!(error_line_filter(line, cycles).len(), 1);
}
