//! Status reports sent to the status store: what a report holds, and the
//! wall-clock reading it carries.

use std::time::{Duration, SystemTime, SystemTimeError};

use vstd::prelude::*;
use vstd::string::to_string_from_display_ensures;

use crate::text::prefixed;
use crate::tube_config::TubeConfig;

verus! {

#[verifier::external_type_specification]
#[verifier::external_body]
pub struct ExSystemTime(SystemTime);

#[verifier::external_type_specification]
#[verifier::external_body]
pub struct ExSystemTimeError(SystemTimeError);

#[verifier::external_type_specification]
#[verifier::external_body]
pub struct ExReqwestError(reqwest::Error);

#[verifier::external_type_specification]
#[verifier::external_body]
pub struct ExJsonError(serde_json::Error);

/// Why a status report could not be produced or delivered.
#[derive(Debug)]
pub enum StatusError {
    /// The system clock reads earlier than the Unix epoch.
    Time(SystemTimeError),
    /// The HTTP request failed or was answered with an error status.
    Network(reqwest::Error),
    /// The report could not be encoded.
    Json(serde_json::Error),
}

/// Calls `SystemTime::now`. It reads the system clock, so nothing is promised
/// of the value.
#[verifier::external_body]
fn system_now() -> SystemTime {
    SystemTime::now()
}

/// Calls `SystemTime::duration_since` with `UNIX_EPOCH` as the earlier time.
/// Whether it succeeds depends on the clock reading, so nothing is promised.
#[verifier::external_body]
fn since_unix_epoch(t: &SystemTime) -> Result<Duration, SystemTimeError> {
    t.duration_since(SystemTime::UNIX_EPOCH)
}

/// Calls `Duration::as_millis`. The duration is opaque here, so nothing is
/// promised of the number.
#[verifier::external_body]
fn whole_millis(d: &Duration) -> u128 {
    d.as_millis()
}

/// Milliseconds since the Unix epoch, or `Time` when the clock reads earlier
/// than the epoch.
pub fn time_millis() -> (r: Result<u128, StatusError>)
    ensures
        r is Ok || r is Err && r->Err_0 is Time,
{
    let now = system_now();
    match since_unix_epoch(&now) {
        Ok(d) => Ok(whole_millis(&d)),
        Err(e) => Err(StatusError::Time(e)),
    }
}

/// The stage a status report announces.
#[derive(Debug, Clone, Copy, PartialEq, Eq, Structural)]
pub enum State {
    Started,
    Finished,
}

/// A status report for the status store.
#[derive(Debug)]
pub struct StatusUpdate {
    pub run_id: String,
    pub node_name: String,
    pub state: State,
    pub started_at: u128,
    pub finished_at: Option<u128>,
    pub success: Option<bool>,
}

impl StatusUpdate {
    /// The report that the node has started at `now` (milliseconds since the
    /// Unix epoch).
    pub fn started(config: &TubeConfig, now: u128) -> (u: StatusUpdate)
        ensures
            u.run_id@ == config@.run_id,
            u.node_name@ == config@.node_name,
            u.state == State::Started,
            u.started_at == now,
            u.finished_at is None,
            u.success is None,
    {
        StatusUpdate {
            run_id: config.run_id().to_owned(),
            node_name: config.node_name().to_owned(),
            state: State::Started,
            started_at: now,
            finished_at: None,
            success: None,
        }
    }

    /// The report that the node, started at `started_at`, finished at `now`
    /// with the given outcome.
    pub fn finished(config: &TubeConfig, started_at: u128, now: u128, success: bool) -> (u:
        StatusUpdate)
        ensures
            u.run_id@ == config@.run_id,
            u.node_name@ == config@.node_name,
            u.state == State::Finished,
            u.started_at == started_at,
            u.finished_at == Some(now),
            u.success == Some(success),
    {
        StatusUpdate {
            run_id: config.run_id().to_owned(),
            node_name: config.node_name().to_owned(),
            state: State::Finished,
            started_at,
            finished_at: Some(now),
            success: Some(success),
        }
    }
}

impl StatusError {
    /// `m` is this error's message.
    pub open spec fn describes(&self, m: Seq<char>) -> bool {
        match self {
            StatusError::Time(e) => exists|d: String|
                #[trigger] to_string_from_display_ensures::<SystemTimeError>(e, d) && m
                    == "Failed to get current time: "@ + d@,
            StatusError::Network(e) => exists|d: String|
                #[trigger] to_string_from_display_ensures::<reqwest::Error>(e, d) && m
                    == "Network request failed: "@ + d@,
            StatusError::Json(e) => exists|d: String|
                #[trigger] to_string_from_display_ensures::<serde_json::Error>(e, d) && m
                    == "Serialization failed: "@ + d@,
        }
    }

    /// The error's message.
    pub fn message(&self) -> (m: String)
        ensures
            self.describes(m@),
    {
        match self {
            StatusError::Time(e) => prefixed("Failed to get current time: ", e.to_string().as_str()),
            StatusError::Network(e) => prefixed("Network request failed: ", e.to_string().as_str()),
            StatusError::Json(e) => prefixed("Serialization failed: ", e.to_string().as_str()),
        }
    }
}

} // verus!
