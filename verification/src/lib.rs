//! Execution agent for a CI/CD pipeline node: the verified core.

pub mod text;
pub mod workspace;
pub mod status_update;
pub mod execution;
pub mod secrets;
pub mod tube_config;

use vstd::prelude::*;
use vstd::string::to_string_from_display_ensures;

use crate::execution::node_succeeded;
use crate::text::prefixed;

verus! {

/// Why a node run stopped short of reporting its outcome.
#[derive(Debug)]
pub enum TubeError {
    Config(tube_config::TubeConfigError),
    Workspace(workspace::WorksapceError),
    Execution(execution::ExecutionError),
    Status(status_update::StatusError),
    Secrets(secrets::SecretsError),
    Reqwest(reqwest::Error),
}

impl TubeError {
    /// `m` is this error's message: the stage that failed, then the message of
    /// the failure.
    pub open spec fn describes(&self, m: Seq<char>) -> bool {
        match self {
            TubeError::Config(e) => exists|d: Seq<char>|
                #[trigger] e.describes(d) && m == "Configuration error: "@ + d,
            TubeError::Workspace(e) => exists|d: Seq<char>|
                #[trigger] e.describes(d) && m == "Workspace error: "@ + d,
            TubeError::Execution(e) => exists|d: Seq<char>|
                #[trigger] e.describes(d) && m == "Execution error: "@ + d,
            TubeError::Status(e) => exists|d: Seq<char>|
                #[trigger] e.describes(d) && m == "Status reporting error: "@ + d,
            TubeError::Secrets(e) => exists|d: Seq<char>|
                #[trigger] e.describes(d) && m == "Secrets error: "@ + d,
            TubeError::Reqwest(e) => exists|d: String|
                #[trigger] to_string_from_display_ensures::<reqwest::Error>(e, d) && m
                    == "Reqwest error: "@ + d@,
        }
    }

    /// The error's message.
    pub fn message(&self) -> (m: String)
        ensures
            self.describes(m@),
    {
        match self {
            TubeError::Config(e) => prefixed("Configuration error: ", e.message().as_str()),
            TubeError::Workspace(e) => prefixed("Workspace error: ", e.message().as_str()),
            TubeError::Execution(e) => prefixed("Execution error: ", e.message().as_str()),
            TubeError::Status(e) => prefixed("Status reporting error: ", e.message().as_str()),
            TubeError::Secrets(e) => prefixed("Secrets error: ", e.message().as_str()),
            TubeError::Reqwest(e) => prefixed("Reqwest error: ", e.to_string().as_str()),
        }
    }
}

/// A stage of a node run, in the order the stages are taken.
#[derive(Debug, Clone, Copy, PartialEq, Eq, Structural)]
pub enum RunStep {
    /// Read the env-var secrets.
    LoadSecrets,
    /// Report the node as started.
    ReportStarted,
    /// Download and unpack the repository archive.
    ProvisionWorkspace,
    /// Run the user script while capturing its output.
    RunScript,
    /// Upload the captured log; `success` is the node's outcome so far.
    UploadLogs { success: bool },
    /// Report the node as finished with the given outcome.
    ReportFinished { success: bool },
    /// Notify the backend.
    PokeBackend,
    /// The run is over and succeeded in reporting.
    Done,
    /// The run is over; it returns the error of the step that failed.
    Stopped,
}

/// How a step went.
#[derive(Debug, Clone, Copy, PartialEq, Eq, Structural)]
pub enum StepOutcome {
    /// The step did its work.
    Completed,
    /// The step failed with an error.
    Failed,
    /// The user script ran and exited with this code.
    Exited(i32),
}

/// The step that follows `step` when it went as `outcome` says. Failing to
/// read secrets, to report the start, to report the finish or to notify the
/// backend stops the run with that error; a failed workspace or script is
/// reported as an unsuccessful node and the run goes on; a failed log upload
/// changes nothing.
pub fn next_step(step: RunStep, outcome: StepOutcome) -> (next: RunStep)
    ensures
        step == RunStep::LoadSecrets ==> next == (if outcome == StepOutcome::Failed {
            RunStep::Stopped
        } else {
            RunStep::ReportStarted
        }),
        step == RunStep::ReportStarted ==> next == (if outcome == StepOutcome::Failed {
            RunStep::Stopped
        } else {
            RunStep::ProvisionWorkspace
        }),
        step == RunStep::ProvisionWorkspace ==> next == (if outcome == StepOutcome::Failed {
            RunStep::UploadLogs { success: false }
        } else {
            RunStep::RunScript
        }),
        step == RunStep::RunScript ==> next == (RunStep::UploadLogs {
            success: outcome == StepOutcome::Exited(0),
        }),
        step matches RunStep::UploadLogs { success } ==> next == (RunStep::ReportFinished {
            success,
        }),
        step matches RunStep::ReportFinished { .. } ==> next == (if outcome == StepOutcome::Failed {
            RunStep::Stopped
        } else {
            RunStep::PokeBackend
        }),
        step == RunStep::PokeBackend ==> next == (if outcome == StepOutcome::Failed {
            RunStep::Stopped
        } else {
            RunStep::Done
        }),
        step == RunStep::Done ==> next == RunStep::Done,
        step == RunStep::Stopped ==> next == RunStep::Stopped,
{
    let failed = match outcome {
        StepOutcome::Failed => true,
        _ => false,
    };
    match step {
        RunStep::LoadSecrets => if failed {
            RunStep::Stopped
        } else {
            RunStep::ReportStarted
        },
        RunStep::ReportStarted => if failed {
            RunStep::Stopped
        } else {
            RunStep::ProvisionWorkspace
        },
        RunStep::ProvisionWorkspace => if failed {
            RunStep::UploadLogs { success: false }
        } else {
            RunStep::RunScript
        },
        RunStep::RunScript => {
            let exit_code = match outcome {
                StepOutcome::Exited(code) => Some(code),
                _ => None,
            };
            RunStep::UploadLogs { success: node_succeeded(exit_code) }
        },
        RunStep::UploadLogs { success } => RunStep::ReportFinished { success },
        RunStep::ReportFinished { .. } => if failed {
            RunStep::Stopped
        } else {
            RunStep::PokeBackend
        },
        RunStep::PokeBackend => if failed {
            RunStep::Stopped
        } else {
            RunStep::Done
        },
        RunStep::Done => RunStep::Done,
        RunStep::Stopped => RunStep::Stopped,
    }
}

} // verus!
