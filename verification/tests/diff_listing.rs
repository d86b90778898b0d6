use blvflag::diff::{compare_strs, count_changes};

#[test]
fn listing_shows_removed_and_added_lines() {
    let out = compare_strs("a\nb\nc", "a\nb\nC").unwrap();
    assert_eq!(out, "- c\n+ C\n");
}

#[test]
fn listing_keeps_line_breaks_of_the_values() {
    let out = compare_strs("x\ny\n", "x\nz\n").unwrap();
    assert_eq!(out, "- y\n+ z\n");
}

#[test]
fn listing_of_identical_texts_is_empty() {
    let text = "def f():\n    return 1\n";
    assert_eq!(compare_strs(text, text).unwrap(), "");
    assert_eq!(count_changes(text, text), 0);
}

#[test]
fn listing_of_new_text_from_nothing() {
    assert_eq!(compare_strs("", "x").unwrap(), "+ x\n");
    assert_eq!(count_changes("", "x"), 1);
}

#[test]
fn carriage_return_counts_as_line_end() {
    assert_eq!(compare_strs("a\r", "b\r").unwrap(), "- a\r+ b\r");
}

#[test]
fn count_changes_counts_deleted_and_inserted_lines() {
    assert_eq!(count_changes("a\nb\n", "a\nc\n"), 2);
    assert_eq!(count_changes("a\nb\nc\n", "a\nc\n"), 1);
    assert_eq!(count_changes("a\n", "a\nb\nc\n"), 2);
}

#[test]
fn count_is_zero_only_for_equal_texts() {
    assert!(count_changes("a", "a\n") > 0);
    assert!(count_changes("a\n", "a") > 0);
    assert_eq!(count_changes("", ""), 0);
}

#[test]
fn empty_old_text_inserts_every_line() {
    assert_eq!(count_changes("", "a\nb\r\nc\rd"), 4);
    assert_eq!(compare_strs("", "a\nb\r\nc\rd").unwrap(), "+ a\n+ b\r\n+ c\r+ d\n");
}

#[test]
fn empty_new_text_deletes_every_line() {
    assert_eq!(count_changes("x\ny\n", ""), 2);
    assert_eq!(compare_strs("x\ny", "").unwrap(), "- x\n- y\n");
}
