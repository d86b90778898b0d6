use blvflag::commands::OutputType;
use blvflag::history::HistoryKind;
use blvflag::run::{plan_run, Step};

#[test]
fn success_without_flags_prints_and_saves() {
    let plan = plan_run(OutputType::Stdout, false, false);
    assert_eq!(plan.history, HistoryKind::StdHistory);
    assert_eq!(plan.steps, vec![Step::PrintOutput, Step::LookUpVersions, Step::SaveVersion]);
}

#[test]
fn success_with_diff_reports_instead_of_printing() {
    let plan = plan_run(OutputType::Stdout, true, true);
    assert_eq!(plan.steps, vec![Step::LookUpVersions, Step::ReportChanges, Step::SaveVersion]);
}

#[test]
fn failure_without_flags_prints_the_error() {
    let plan = plan_run(OutputType::Stderr, false, false);
    assert_eq!(plan.history, HistoryKind::ErrHistory);
    assert_eq!(
        plan.steps,
        vec![Step::PrintErrorBanner, Step::StartModelServer, Step::LookUpVersions, Step::SaveVersion]
    );
}

#[test]
fn failure_with_both_flags_reports_then_explains_then_saves() {
    let plan = plan_run(OutputType::Stderr, true, true);
    assert_eq!(
        plan.steps,
        vec![
            Step::StartModelServer,
            Step::LookUpVersions,
            Step::ReportChanges,
            Step::ExplainError,
            Step::SaveVersion,
        ]
    );
}

#[test]
fn failure_with_explain_only() {
    let plan = plan_run(OutputType::Stderr, true, false);
    assert_eq!(
        plan.steps,
        vec![Step::StartModelServer, Step::LookUpVersions, Step::ExplainError, Step::SaveVersion]
    );
}
