use tube::execution::ExecutionError;
use tube::secrets::SecretsError;
use tube::status_update::StatusError;
use tube::tube_config::TubeConfigError;
use tube::{next_step, RunStep, StepOutcome, TubeError};
use tube::StepOutcome::{Completed, Exited, Failed};

fn walk(outcomes: &[StepOutcome]) -> Vec<RunStep> {
    let mut step = RunStep::LoadSecrets;
    let mut seen = vec![step];
    for o in outcomes {
        step = next_step(step, *o);
        seen.push(step);
    }
    seen
}

#[test]
fn successful_run_takes_every_step_in_order() {
    let steps = walk(&[Completed, Completed, Completed, Exited(0), Completed, Completed, Completed]);
    assert_eq!(
        steps,
        vec![
            RunStep::LoadSecrets,
            RunStep::ReportStarted,
            RunStep::ProvisionWorkspace,
            RunStep::RunScript,
            RunStep::UploadLogs { success: true },
            RunStep::ReportFinished { success: true },
            RunStep::PokeBackend,
            RunStep::Done,
        ]
    );
}

#[test]
fn failed_start_report_stops_the_run() {
    assert_eq!(next_step(RunStep::ReportStarted, StepOutcome::Failed), RunStep::Stopped);
    assert_eq!(next_step(RunStep::LoadSecrets, StepOutcome::Failed), RunStep::Stopped);
}

#[test]
fn workspace_failure_is_reported_not_returned() {
    let steps = walk(&[Completed, Completed, Failed, Completed, Completed, Completed]);
    assert_eq!(steps[3], RunStep::UploadLogs { success: false });
    assert_eq!(steps[4], RunStep::ReportFinished { success: false });
    assert_eq!(*steps.last().unwrap(), RunStep::Done);
}

#[test]
fn script_exit_code_decides_success() {
    assert_eq!(
        next_step(RunStep::RunScript, StepOutcome::Exited(1)),
        RunStep::UploadLogs { success: false }
    );
    assert_eq!(
        next_step(RunStep::RunScript, StepOutcome::Failed),
        RunStep::UploadLogs { success: false }
    );
}

#[test]
fn failed_log_upload_changes_nothing() {
    assert_eq!(
        next_step(RunStep::UploadLogs { success: true }, StepOutcome::Failed),
        RunStep::ReportFinished { success: true }
    );
}

#[test]
fn failed_finish_or_poke_stops_the_run() {
    assert_eq!(
        next_step(RunStep::ReportFinished { success: true }, StepOutcome::Failed),
        RunStep::Stopped
    );
    assert_eq!(next_step(RunStep::PokeBackend, StepOutcome::Failed), RunStep::Stopped);
    assert_eq!(next_step(RunStep::Done, StepOutcome::Failed), RunStep::Done);
}

#[test]
fn other_error_messages() {
    assert_eq!(ExecutionError::Pipe.message(), "Process pipe was not captured");
    assert_eq!(
        ExecutionError::Signal(9).message(),
        "Script terminated by signal: 9"
    );
    let io = std::io::Error::new(std::io::ErrorKind::Other, "denied");
    assert_eq!(
        SecretsError::Io(io).message(),
        "Failed to read secrets directory: denied"
    );
    let missing = TubeConfigError::RequiredField("TUBE__EXECUTION__RUN_ID".to_string());
    assert_eq!(
        missing.message(),
        "Required configuration field is empty: TUBE__EXECUTION__RUN_ID"
    );
    assert_eq!(
        TubeError::Config(missing).message(),
        "Configuration error: Required configuration field is empty: TUBE__EXECUTION__RUN_ID"
    );
    let clock_err = std::time::UNIX_EPOCH
        .duration_since(std::time::SystemTime::now())
        .unwrap_err();
    assert!(StatusError::Time(clock_err)
        .message()
        .starts_with("Failed to get current time: "));
}
