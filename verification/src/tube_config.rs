//! The node's configuration: the values it is started with, the checks that
//! required values are present, and the verbosity levels it names.

use vstd::prelude::*;
use vstd::string::to_string_from_display_ensures;

use crate::text::{ascii_lower, prefixed};

verus! {

/// Where the user script is found when nothing else is configured.
pub const DEFAULT_USER_SCRIPT_PATH: &'static str = "/tmp/user_script.sh";

/// Verbosity of the user script's captured output when nothing is configured.
pub const DEFAULT_EXECUTION_LOG_LEVEL: &'static str = "info";

/// Milliseconds between periodic log uploads when nothing is configured.
pub const DEFAULT_LOG_UPLOAD_INTERVAL_MS: u64 = 5000;

/// The agent's own verbosity when nothing is configured.
pub const DEFAULT_LOG_LEVEL: &'static str = "warn";

/// The workspace directory when nothing is configured.
pub const DEFAULT_WORKSPACE_DIR: &'static str = "/workspace";

/// The directory of env-var secret files when nothing is configured.
pub const DEFAULT_SECRETS_DIR: &'static str = "/etc/tube/secrets/env";

#[verifier::external_type_specification]
#[verifier::external_body]
pub struct ExConfigError(config::ConfigError);

/// Why the configuration could not be loaded.
#[derive(Debug)]
pub enum TubeConfigError {
    /// The configuration sources could not be read or deserialized.
    Config(config::ConfigError),
    /// A required value is empty; the field names its environment variable.
    RequiredField(String),
}

/// The `[execution]` section as loaded.
#[derive(Debug)]
pub struct ExecutionConfig {
    pub status_put_url: String,
    pub poke_url: String,
    pub run_id: String,
    pub node_name: String,
    pub user_script_path: String,
    pub log_level: String,
    pub logs_put_url: String,
    pub log_upload_interval_ms: u64,
}

/// The `[log]` section as loaded.
#[derive(Debug)]
pub struct LogConfig {
    pub level: String,
}

/// The `[workspace]` section as loaded.
#[derive(Debug)]
pub struct WorkspaceConfig {
    pub get_url: String,
    pub dir: String,
}

/// The `[secrets]` section as loaded.
#[derive(Debug)]
pub struct SecretsConfig {
    pub dir: String,
}

/// The configuration's values, as characters.
pub struct TubeConfigView {
    pub status_put_url: Seq<char>,
    pub poke_url: Seq<char>,
    pub run_id: Seq<char>,
    pub node_name: Seq<char>,
    pub user_script_path: Seq<char>,
    pub execution_log_level: Seq<char>,
    pub logs_put_url: Seq<char>,
    pub log_upload_interval_ms: u64,
    pub log_level: Seq<char>,
    pub get_url: Seq<char>,
    pub workspace_dir: Seq<char>,
    pub secrets_dir: Seq<char>,
}

/// The values of the loaded sections, as characters.
pub open spec fn sections_view(
    execution: ExecutionConfig,
    log: LogConfig,
    workspace: WorkspaceConfig,
    secrets: SecretsConfig,
) -> TubeConfigView {
    TubeConfigView {
        status_put_url: execution.status_put_url@,
        poke_url: execution.poke_url@,
        run_id: execution.run_id@,
        node_name: execution.node_name@,
        user_script_path: execution.user_script_path@,
        execution_log_level: execution.log_level@,
        logs_put_url: execution.logs_put_url@,
        log_upload_interval_ms: execution.log_upload_interval_ms,
        log_level: log.level@,
        get_url: workspace.get_url@,
        workspace_dir: workspace.dir@,
        secrets_dir: secrets.dir@,
    }
}

/// The environment variable of the first required value that is empty, in the
/// order the checks are made; none when every required value is present.
pub open spec fn first_missing(v: TubeConfigView) -> Option<Seq<char>> {
    if v.user_script_path.len() == 0 {
        Some("TUBE__EXECUTION__USER_SCRIPT_PATH"@)
    } else if v.status_put_url.len() == 0 {
        Some("TUBE__EXECUTION__STATUS_PUT_URL"@)
    } else if v.poke_url.len() == 0 {
        Some("TUBE__EXECUTION__POKE_URL"@)
    } else if v.run_id.len() == 0 {
        Some("TUBE__EXECUTION__RUN_ID"@)
    } else if v.node_name.len() == 0 {
        Some("TUBE__EXECUTION__NODE_NAME"@)
    } else if v.logs_put_url.len() == 0 {
        Some("TUBE__EXECUTION__LOGS_PUT_URL"@)
    } else if v.workspace_dir.len() == 0 {
        Some("TUBE__WORKSPACE__DIR"@)
    } else {
        None
    }
}

/// A configuration is refused exactly when one of the seven required values
/// is empty, whatever the text of the values that are present, and a refusal
/// names a value that is empty.
pub proof fn lemma_refused_only_for_empty_values(v: TubeConfigView)
    ensures
        first_missing(v) is None <==> (v.user_script_path.len() > 0 && v.status_put_url.len() > 0
            && v.poke_url.len() > 0 && v.run_id.len() > 0 && v.node_name.len() > 0
            && v.logs_put_url.len() > 0 && v.workspace_dir.len() > 0),
        first_missing(v) matches Some(n) ==> {
            ||| n == "TUBE__EXECUTION__USER_SCRIPT_PATH"@ && v.user_script_path.len() == 0
            ||| n == "TUBE__EXECUTION__STATUS_PUT_URL"@ && v.status_put_url.len() == 0
            ||| n == "TUBE__EXECUTION__POKE_URL"@ && v.poke_url.len() == 0
            ||| n == "TUBE__EXECUTION__RUN_ID"@ && v.run_id.len() == 0
            ||| n == "TUBE__EXECUTION__NODE_NAME"@ && v.node_name.len() == 0
            ||| n == "TUBE__EXECUTION__LOGS_PUT_URL"@ && v.logs_put_url.len() == 0
            ||| n == "TUBE__WORKSPACE__DIR"@ && v.workspace_dir.len() == 0
        },
{
}

/// A verbosity level.
#[derive(Debug, Clone, Copy, PartialEq, Eq, Structural)]
pub enum LogLevel {
    Trace,
    Debug,
    Info,
    Warn,
    Error,
}

/// Equal up to ASCII case.
pub open spec fn eq_ignore_ascii_case(a: Seq<char>, b: Seq<char>) -> bool {
    a.len() == b.len() && forall|i: int| 0 <= i < a.len() ==> ascii_lower(a[i]) == ascii_lower(b[i])
}

/// The level a decimal number 1-5 names (1 is error, 5 is trace): an optional
/// `+`, any leading zeros and one digit.
pub open spec fn numeric_level(s: Seq<char>) -> Option<LogLevel> {
    let d = if s.len() > 0 && s[0] == '+' {
        s.skip(1)
    } else {
        s
    };
    if d.len() > 0 && (forall|i: int| 0 <= i < d.len() - 1 ==> d[i] == '0') {
        if d.last() == '1' {
            Some(LogLevel::Error)
        } else if d.last() == '2' {
            Some(LogLevel::Warn)
        } else if d.last() == '3' {
            Some(LogLevel::Info)
        } else if d.last() == '4' {
            Some(LogLevel::Debug)
        } else if d.last() == '5' {
            Some(LogLevel::Trace)
        } else {
            None
        }
    } else {
        None
    }
}

/// The level a name designates, in any ASCII case.
pub open spec fn named_level(s: Seq<char>) -> Option<LogLevel> {
    if eq_ignore_ascii_case(s, "error"@) {
        Some(LogLevel::Error)
    } else if eq_ignore_ascii_case(s, "warn"@) {
        Some(LogLevel::Warn)
    } else if eq_ignore_ascii_case(s, "info"@) {
        Some(LogLevel::Info)
    } else if eq_ignore_ascii_case(s, "debug"@) {
        Some(LogLevel::Debug)
    } else if eq_ignore_ascii_case(s, "trace"@) {
        Some(LogLevel::Trace)
    } else {
        None
    }
}

/// What `tracing::Level` parses from the text: a number 1-5 or a level name.
pub open spec fn parse_level(s: Seq<char>) -> Option<LogLevel> {
    match numeric_level(s) {
        Some(l) => Some(l),
        None => named_level(s),
    }
}

/// Calls `<tracing::Level as FromStr>::from_str`. Its source first parses the
/// text as a `usize` (an optional `+` then decimal digits) and maps 1-5 to
/// error, warn, info, debug, trace; failing that it compares the text, ignoring
/// ASCII case, with those five names; anything else is an error, given here
/// as `None`.
#[verifier::external_body]
fn parse_tracing_level(s: &str) -> (r: Option<LogLevel>)
    ensures
        r == parse_level(s@),
{
    match s.parse::<tracing::Level>() {
        Ok(tracing::Level::ERROR) => Some(LogLevel::Error),
        Ok(tracing::Level::WARN) => Some(LogLevel::Warn),
        Ok(tracing::Level::INFO) => Some(LogLevel::Info),
        Ok(tracing::Level::DEBUG) => Some(LogLevel::Debug),
        Ok(_) => Some(LogLevel::Trace),
        Err(_) => None,
    }
}

/// The level the text names, or `fallback` when it names none.
pub open spec fn level_or(s: Seq<char>, fallback: LogLevel) -> LogLevel {
    match parse_level(s) {
        Some(l) => l,
        None => fallback,
    }
}

/// The node's validated configuration.
#[derive(Debug)]
pub struct TubeConfig {
    execution: ExecutionConfig,
    log: LogConfig,
    workspace: WorkspaceConfig,
    secrets: SecretsConfig,
}

impl View for TubeConfig {
    type V = TubeConfigView;

    closed spec fn view(&self) -> TubeConfigView {
        sections_view(self.execution, self.log, self.workspace, self.secrets)
    }
}

/// Whether a string is empty.
fn empty(s: &String) -> (b: bool)
    ensures
        b == (s@.len() == 0),
{
    s.as_str().is_empty()
}

impl TubeConfig {
    /// The configuration from its loaded sections, refused with the name of
    /// the first required value that is empty: user script path, status URL,
    /// poke URL, run id, node name, logs URL, workspace directory.
    pub fn new(
        execution: ExecutionConfig,
        log: LogConfig,
        workspace: WorkspaceConfig,
        secrets: SecretsConfig,
    ) -> (r: Result<TubeConfig, TubeConfigError>)
        ensures
            ({
                let v = sections_view(execution, log, workspace, secrets);
                match first_missing(v) {
                    Some(name) => r matches Err(TubeConfigError::RequiredField(f)) && f@ == name,
                    None => r matches Ok(c) && c@ == v,
                }
            }),
    {
        if empty(&execution.user_script_path) {
            return Err(TubeConfigError::RequiredField("TUBE__EXECUTION__USER_SCRIPT_PATH".to_owned()));
        }
        if empty(&execution.status_put_url) {
            return Err(TubeConfigError::RequiredField("TUBE__EXECUTION__STATUS_PUT_URL".to_owned()));
        }
        if empty(&execution.poke_url) {
            return Err(TubeConfigError::RequiredField("TUBE__EXECUTION__POKE_URL".to_owned()));
        }
        if empty(&execution.run_id) {
            return Err(TubeConfigError::RequiredField("TUBE__EXECUTION__RUN_ID".to_owned()));
        }
        if empty(&execution.node_name) {
            return Err(TubeConfigError::RequiredField("TUBE__EXECUTION__NODE_NAME".to_owned()));
        }
        if empty(&execution.logs_put_url) {
            return Err(TubeConfigError::RequiredField("TUBE__EXECUTION__LOGS_PUT_URL".to_owned()));
        }
        if empty(&workspace.dir) {
            return Err(TubeConfigError::RequiredField("TUBE__WORKSPACE__DIR".to_owned()));
        }
        Ok(TubeConfig { execution, log, workspace, secrets })
    }

    /// The URL of the repository archive; empty when there is none.
    pub fn get_url(&self) -> (s: &str)
        ensures
            s@ == self@.get_url,
    {
        self.workspace.get_url.as_str()
    }

    /// The pre-signed URL that status reports are sent to.
    pub fn status_put_url(&self) -> (s: &str)
        ensures
            s@ == self@.status_put_url,
    {
        self.execution.status_put_url.as_str()
    }

    /// The backend endpoint notified when the node is done.
    pub fn poke_url(&self) -> (s: &str)
        ensures
            s@ == self@.poke_url,
    {
        self.execution.poke_url.as_str()
    }

    /// The pipeline run's identifier.
    pub fn run_id(&self) -> (s: &str)
        ensures
            s@ == self@.run_id,
    {
        self.execution.run_id.as_str()
    }

    /// The pipeline node's name.
    pub fn node_name(&self) -> (s: &str)
        ensures
            s@ == self@.node_name,
    {
        self.execution.node_name.as_str()
    }

    /// The agent's own verbosity; warn when the configured value names no level.
    pub fn log_level(&self) -> (l: LogLevel)
        ensures
            l == level_or(self@.log_level, LogLevel::Warn),
    {
        match parse_tracing_level(self.log.level.as_str()) {
            Some(l) => l,
            None => LogLevel::Warn,
        }
    }

    /// The verbosity of the user script's output; info when the configured
    /// value names no level.
    pub fn execution_log_level(&self) -> (l: LogLevel)
        ensures
            l == level_or(self@.execution_log_level, LogLevel::Info),
    {
        match parse_tracing_level(self.execution.log_level.as_str()) {
            Some(l) => l,
            None => LogLevel::Info,
        }
    }

    /// The pre-signed URL that the log buffer is uploaded to.
    pub fn logs_put_url(&self) -> (s: &str)
        ensures
            s@ == self@.logs_put_url,
    {
        self.execution.logs_put_url.as_str()
    }

    /// Milliseconds between periodic log uploads.
    pub fn log_upload_interval_ms(&self) -> (ms: u64)
        ensures
            ms == self@.log_upload_interval_ms,
    {
        self.execution.log_upload_interval_ms
    }

    /// The directory the repository is unpacked into and the script runs in.
    pub fn workspace_dir(&self) -> (s: &str)
        ensures
            s@ == self@.workspace_dir,
    {
        self.workspace.dir.as_str()
    }

    /// The path of the user script.
    pub fn script_path(&self) -> (s: &str)
        ensures
            s@ == self@.user_script_path,
    {
        self.execution.user_script_path.as_str()
    }

    /// The directory of env-var secret files.
    pub fn secrets_dir(&self) -> (s: &str)
        ensures
            s@ == self@.secrets_dir,
    {
        self.secrets.dir.as_str()
    }
}

impl TubeConfigError {
    /// `m` is this error's message.
    pub open spec fn describes(&self, m: Seq<char>) -> bool {
        match self {
            TubeConfigError::Config(e) => exists|d: String|
                #[trigger] to_string_from_display_ensures::<config::ConfigError>(e, d) && m
                    == "Configuration loading failed: "@ + d@,
            TubeConfigError::RequiredField(f) => m == "Required configuration field is empty: "@
                + f@,
        }
    }

    /// The error's message.
    pub fn message(&self) -> (m: String)
        ensures
            self.describes(m@),
    {
        match self {
            TubeConfigError::Config(e) => prefixed(
                "Configuration loading failed: ",
                e.to_string().as_str(),
            ),
            TubeConfigError::RequiredField(f) => prefixed(
                "Required configuration field is empty: ",
                f.as_str(),
            ),
        }
    }
}

} // verus!
