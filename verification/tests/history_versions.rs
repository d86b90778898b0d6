use blvflag::history::{
    diff_report, explain_prompt, history_file_name, latest_version, script_stem, should_save,
    HistoryKind,
};

#[test]
fn stem_drops_every_trailing_py() {
    assert_eq!(script_stem("main.py"), "main");
    assert_eq!(script_stem("a.py.py"), "a");
    assert_eq!(script_stem("module.pyc"), "module.pyc");
    assert_eq!(script_stem(".py"), "");
    assert_eq!(script_stem("main"), "main");
}

#[test]
fn saved_file_name_has_stem_date_and_json() {
    assert_eq!(history_file_name("tool.py", "2024-05-01 10:00:00"), "tool_2024-05-01 10:00:00.json");
}

fn names(v: &[&str]) -> Vec<String> {
    v.iter().map(|s| s.to_string()).collect()
}

#[test]
fn latest_prefers_success_history() {
    let std_names = names(&["tool_1.json", "tool_3.json", "other_9.json"]);
    let err_names = names(&["tool_5.json"]);
    assert_eq!(
        latest_version(&std_names, &err_names, "tool"),
        Some((HistoryKind::StdHistory, 1))
    );
}

#[test]
fn latest_falls_back_to_error_history() {
    let std_names = names(&["other_1.json"]);
    let err_names = names(&["tool_2.json", "tool_10.json", "placeholder.json"]);
    assert_eq!(
        latest_version(&std_names, &err_names, "tool"),
        Some((HistoryKind::ErrHistory, 0))
    );
}

#[test]
fn no_version_without_matching_names() {
    let std_names = names(&["placeholder.json"]);
    let err_names = names(&[]);
    assert_eq!(latest_version(&std_names, &err_names, "tool"), None);
}

#[test]
fn save_only_when_changed() {
    assert!(should_save(None, "print(1)"));
    assert!(!should_save(Some("print(1)"), "print(1)"));
    assert!(should_save(Some("print(1)"), "print(2)"));
}

#[test]
fn report_lines_for_each_case() {
    assert_eq!(diff_report(None), vec!["No prior version found to diff against."]);
    assert_eq!(diff_report(Some("")), vec!["No changes made."]);
    assert_eq!(
        diff_report(Some("- a\n+ b\n")),
        vec!["------changes------", "- a\n+ b\n", "-------------------"]
    );
}

#[test]
fn prompt_carries_the_error() {
    let p = explain_prompt("NameError: x");
    assert!(p.starts_with("Provide the error line number"));
    assert!(p.ends_with(":\nNameError: x"));
}
