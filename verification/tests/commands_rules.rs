use blvflag::commands::{classify_output, is_confirmation, removable_history_entry, OutputType};

#[test]
fn successful_run_reports_stdout() {
    let (kind, text) = classify_output(true, b"hello\n", b"ignored");
    assert_eq!(kind, OutputType::Stdout);
    assert_eq!(text, "hello\n");
}

#[test]
fn failed_run_reports_stderr() {
    let (kind, text) = classify_output(false, b"ignored", b"Traceback\n");
    assert_eq!(kind, OutputType::Stderr);
    assert_eq!(text, "Traceback\n");
}

#[test]
fn invalid_utf8_is_replaced() {
    let (_, text) = classify_output(true, b"a\xffb", b"");
    assert_eq!(text, "a\u{FFFD}b");
}

#[test]
fn confirmation_accepts_y_in_either_case() {
    assert!(is_confirmation("y"));
    assert!(is_confirmation("Y\n"));
    assert!(is_confirmation("  y \t\n"));
}

#[test]
fn confirmation_refuses_anything_else() {
    assert!(!is_confirmation(""));
    assert!(!is_confirmation("\n"));
    assert!(!is_confirmation("n"));
    assert!(!is_confirmation("yes"));
    assert!(!is_confirmation("y y"));
}

#[test]
fn placeholder_is_kept_when_clearing() {
    assert!(!removable_history_entry("placeholder.json"));
    assert!(removable_history_entry("tool_2024.json"));
    assert!(removable_history_entry("placeholder.json.bak"));
}
