//! The result of a workflow, and what a whole invocation comes to.

use crate::workflow::config::WorkflowConfig;
use crate::workflow::request::RequestData;
use crate::workflow::run::{RunState, WorkflowRun, requests_view};
use vstd::prelude::*;

verus! {

/// The result of the run of a workflow, as it is shown and sent.
#[derive(Debug)]
pub struct WorkflowResult {
    /// The file that holds the workflow.
    pub file: Option<String>,
    /// The workflow's name.
    pub name: String,
    /// When the result was made.
    pub created_at: String,
    /// The time the run took, in milliseconds.
    pub run_time: i64,
    /// Whether every step that ran has passed.
    pub passed: bool,
    /// The records of the steps that ran, with what is masked hidden.
    pub requests: Vec<RequestData>,
}

/// The view of a text that may be missing.
pub open spec fn opt_text(s: Option<String>) -> Option<Seq<char>> {
    match s {
        Some(x) => Some(x@),
        None => None,
    }
}

/// How an invocation ends.
#[derive(Debug, Clone, Copy, PartialEq, Eq, Structural)]
pub enum ExitClass {
    /// Every workflow passed.
    Passed,
    /// At least one workflow failed.
    Failed,
    /// A definition had a fault, and nothing more was run.
    ConfigError,
}

impl WorkflowResult {
    /// The result of a run of `config` that is over; none of a run that is not.
    pub fn from_config(config: &WorkflowConfig, run: WorkflowRun, created_at: String, run_time: i64) -> (r:
        Option<WorkflowResult>)
        ensures
            match run.state {
                RunState::Done(passed) => r matches Some(result) && opt_text(result.file)
                    == opt_text(config.file) && result.name@ == config.name@ && result.created_at@
                    == created_at@ && result.run_time == run_time && result.passed == passed
                    && requests_view(result.requests@) == run@.requests,
                _ => r is None,
            },
    {
        match run.state {
            RunState::Done(passed) => Some(
                WorkflowResult {
                    name: config.name.clone(),
                    file: match &config.file {
                        Some(f) => Some(f.clone()),
                        None => None,
                    },
                    created_at,
                    requests: run.requests,
                    run_time,
                    passed,
                },
            ),
            _ => None,
        }
    }
}

/// Whether every one of the results is a pass.
pub open spec fn all_workflows_passed(results: Seq<WorkflowResult>) -> bool {
    forall|i: int| 0 <= i < results.len() ==> (#[trigger] results[i]).passed
}

/// How an invocation ends whose workflows all ran: passed where every one of
/// them passed, failed where one failed.
pub fn exit_class(results: &Vec<WorkflowResult>) -> (r: ExitClass)
    ensures
        r == (if all_workflows_passed(results@) {
            ExitClass::Passed
        } else {
            ExitClass::Failed
        }),
{
    let mut i: usize = 0;
    while i < results.len()
        invariant
            i <= results.len(),
            forall|k: int| 0 <= k < i ==> (#[trigger] results@[k]).passed,
        decreases results.len() - i,
    {
        if !results[i].passed {
            return ExitClass::Failed;
        }
        i += 1;
    }
    ExitClass::Passed
}

} // verus!
