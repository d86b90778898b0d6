//! What a run of a script is followed by: which history it is saved in, and
//! the steps, in order, that the flags `--diff` and `--explain` call for.
use vstd::prelude::*;
use crate::commands::OutputType;
use crate::history::HistoryKind;

verus! {

/// One step after a script has run.
#[derive(Clone, Copy, Debug, PartialEq, Eq, Structural)]
pub enum Step {
    /// Print the script's standard output.
    PrintOutput,
    /// Print that an error was caught, with a hint at the flags, then the
    /// script's standard error.
    PrintErrorBanner,
    /// Start the local model server.
    StartModelServer,
    /// Read the saved versions: the latest one, and whether this run is new.
    LookUpVersions,
    /// Print the changes since the latest saved version.
    ReportChanges,
    /// Ask the model to explain the error.
    ExplainError,
    /// Save the script as a new version, when it changed.
    SaveVersion,
}

/// What follows a run.
#[derive(Debug)]
pub struct RunPlan {
    /// The history the run is saved in.
    pub history: HistoryKind,
    /// The steps, in order.
    pub steps: Vec<Step>,
}

/// `step` when `cond` holds, else nothing.
pub open spec fn step_if(cond: bool, step: Step) -> Seq<Step> {
    if cond {
        seq![step]
    } else {
        Seq::empty()
    }
}

/// The steps after a run. A successful run prints its output unless
/// `--diff` is given, looks up the saved versions, reports the changes with
/// `--diff`, and saves. A failed run prints the error with a hint unless a
/// flag is given, starts the model server, looks up the saved versions,
/// reports the changes with `--diff`, asks for an explanation with
/// `--explain`, and saves.
pub open spec fn run_steps(outcome: OutputType, explain: bool, diff: bool) -> Seq<Step> {
    match outcome {
        OutputType::Stdout => step_if(!diff, Step::PrintOutput) + seq![Step::LookUpVersions]
            + step_if(diff, Step::ReportChanges) + seq![Step::SaveVersion],
        OutputType::Stderr => step_if(!diff && !explain, Step::PrintErrorBanner) + seq![
            Step::StartModelServer,
            Step::LookUpVersions,
        ] + step_if(diff, Step::ReportChanges) + step_if(explain, Step::ExplainError) + seq![
            Step::SaveVersion,
        ],
    }
}

/// The history of a run: `std_history` after success, `err_history` after failure.
pub open spec fn history_of(outcome: OutputType) -> HistoryKind {
    match outcome {
        OutputType::Stdout => HistoryKind::StdHistory,
        OutputType::Stderr => HistoryKind::ErrHistory,
    }
}

/// The plan that follows a run with the given outcome and flags.
pub fn plan_run(outcome: OutputType, explain: bool, diff: bool) -> (r: RunPlan)
    ensures
        r.history == history_of(outcome),
        r.steps@ == run_steps(outcome, explain, diff),
{
    let mut steps: Vec<Step> = Vec::new();
    match outcome {
        OutputType::Stdout => {
            if !diff {
                steps.push(Step::PrintOutput);
            }
            steps.push(Step::LookUpVersions);
            if diff {
                steps.push(Step::ReportChanges);
            }
            steps.push(Step::SaveVersion);
            assert(steps@ =~= run_steps(outcome, explain, diff));
            RunPlan { history: HistoryKind::StdHistory, steps }
        },
        OutputType::Stderr => {
            if !diff && !explain {
                steps.push(Step::PrintErrorBanner);
            }
            steps.push(Step::StartModelServer);
            steps.push(Step::LookUpVersions);
            if diff {
                steps.push(Step::ReportChanges);
            }
            if explain {
                steps.push(Step::ExplainError);
            }
            steps.push(Step::SaveVersion);
            assert(steps@ =~= run_steps(outcome, explain, diff));
            RunPlan { history: HistoryKind::ErrHistory, steps }
        },
    }
}

/// No step is taken twice. Every run ends by saving, after looking up the
/// saved versions; changes are reported exactly with `--diff` and after the
/// lookup; only a failed
/// run with `--explain` asks the model, and it does so before saving; the
/// output or the error is printed exactly when no flag that replaces it is
/// given.
pub proof fn law_run_steps_order(outcome: OutputType, explain: bool, diff: bool)
    ensures
        ({
            let s = run_steps(outcome, explain, diff);
            &&& s.len() > 0 && s.last() == Step::SaveVersion
            &&& s.contains(Step::LookUpVersions)
            &&& s.contains(Step::ReportChanges) <==> diff
            &&& s.contains(Step::ExplainError) <==> (outcome == OutputType::Stderr && explain)
            &&& s.contains(Step::PrintOutput) <==> (outcome == OutputType::Stdout && !diff)
            &&& s.contains(Step::PrintErrorBanner) <==> (outcome == OutputType::Stderr && !diff
                && !explain)
            &&& forall|i: int, j: int|
                0 <= i < s.len() && 0 <= j < s.len() && s[i] == Step::LookUpVersions && (s[j]
                    == Step::ReportChanges || s[j] == Step::SaveVersion || s[j]
                    == Step::ExplainError) ==> i < j
            &&& forall|i: int|
                0 <= i < s.len() - 1 ==> s[i] != Step::SaveVersion
            &&& forall|i: int, j: int| 0 <= i < j < s.len() ==> s[i] != s[j]
        }),
{
    let s = run_steps(outcome, explain, diff);
    match outcome {
        OutputType::Stdout => {
            if diff {
                assert(s =~= seq![Step::LookUpVersions, Step::ReportChanges, Step::SaveVersion]);
                assert(s[0] == Step::LookUpVersions);
                assert(s[1] == Step::ReportChanges);
            } else {
                assert(s =~= seq![Step::PrintOutput, Step::LookUpVersions, Step::SaveVersion]);
                assert(s[0] == Step::PrintOutput);
                assert(s[1] == Step::LookUpVersions);
            }
        },
        OutputType::Stderr => {
            if diff && explain {
                assert(s =~= seq![
                    Step::StartModelServer,
                    Step::LookUpVersions,
                    Step::ReportChanges,
                    Step::ExplainError,
                    Step::SaveVersion,
                ]);
                assert(s[1] == Step::LookUpVersions);
                assert(s[2] == Step::ReportChanges);
                assert(s[3] == Step::ExplainError);
            } else if diff {
                assert(s =~= seq![
                    Step::StartModelServer,
                    Step::LookUpVersions,
                    Step::ReportChanges,
                    Step::SaveVersion,
                ]);
                assert(s[1] == Step::LookUpVersions);
                assert(s[2] == Step::ReportChanges);
            } else if explain {
                assert(s =~= seq![
                    Step::StartModelServer,
                    Step::LookUpVersions,
                    Step::ExplainError,
                    Step::SaveVersion,
                ]);
                assert(s[1] == Step::LookUpVersions);
                assert(s[2] == Step::ExplainError);
            } else {
                assert(s =~= seq![
                    Step::PrintErrorBanner,
                    Step::StartModelServer,
                    Step::LookUpVersions,
                    Step::SaveVersion,
                ]);
                assert(s[0] == Step::PrintErrorBanner);
                assert(s[2] == Step::LookUpVersions);
            }
        },
    }
}

} // verus!
