use tube::tube_config::{
    ExecutionConfig, LogConfig, LogLevel, SecretsConfig, TubeConfig, TubeConfigError,
    WorkspaceConfig,
};

struct Sections {
    execution: ExecutionConfig,
    log: LogConfig,
    workspace: WorkspaceConfig,
    secrets: SecretsConfig,
}

fn complete() -> Sections {
    Sections {
        execution: ExecutionConfig {
            status_put_url: "https://s3.example.com/status".to_string(),
            poke_url: "https://backend.example.com/poke".to_string(),
            run_id: "run-1".to_string(),
            node_name: "build".to_string(),
            user_script_path: "/tmp/user_script.sh".to_string(),
            log_level: "info".to_string(),
            logs_put_url: "https://s3.example.com/logs".to_string(),
            log_upload_interval_ms: 5000,
        },
        log: LogConfig {
            level: "warn".to_string(),
        },
        workspace: WorkspaceConfig {
            get_url: String::new(),
            dir: "/workspace".to_string(),
        },
        secrets: SecretsConfig {
            dir: "/etc/tube/secrets/env".to_string(),
        },
    }
}

fn load(s: Sections) -> Result<TubeConfig, TubeConfigError> {
    TubeConfig::new(s.execution, s.log, s.workspace, s.secrets)
}

fn missing_field(result: Result<TubeConfig, TubeConfigError>, needle: &str) -> bool {
    matches!(result, Err(TubeConfigError::RequiredField(ref s)) if s.contains(needle))
}

#[test]
fn test_missing_put_url() {
    let mut s = complete();
    s.execution.status_put_url = String::new();
    let result = load(s);
    assert!(missing_field(result, "STATUS_PUT_URL"));
}

#[test]
fn test_missing_poke_url() {
    let mut s = complete();
    s.execution.poke_url = String::new();
    let result = load(s);
    assert!(missing_field(result, "POKE_URL"));
}

#[test]
fn test_missing_run_id() {
    let mut s = complete();
    s.execution.run_id = String::new();
    let result = load(s);
    assert!(missing_field(result, "RUN_ID"));
}

#[test]
fn test_missing_node_name() {
    let mut s = complete();
    s.execution.node_name = String::new();
    let result = load(s);
    assert!(missing_field(result, "NODE_NAME"));
}

#[test]
fn test_missing_user_script_path() {
    let mut s = complete();
    s.execution.user_script_path = String::new();
    let result = load(s);
    assert!(missing_field(result, "USER_SCRIPT_PATH"));
}

#[test]
fn test_missing_workspace_dir() {
    let mut s = complete();
    s.workspace.dir = String::new();
    let result = load(s);
    assert!(missing_field(result, "WORKSPACE__DIR"));
}

#[test]
fn test_load_succeeds_with_all_required_vars() {
    assert!(load(complete()).is_ok());
}

#[test]
fn test_log_level_invalid_falls_back_to_warn() {
    let mut s = complete();
    s.log.level = "bogus".to_string();
    let config = load(s).unwrap();
    assert_eq!(config.log_level(), LogLevel::Warn);
}

#[test]
fn test_execution_log_level_invalid_falls_back_to_info() {
    let mut s = complete();
    s.execution.log_level = "bogus".to_string();
    let config = load(s).unwrap();
    assert_eq!(config.execution_log_level(), LogLevel::Info);
}

#[test]
fn test_missing_logs_put_url() {
    let mut s = complete();
    s.execution.logs_put_url = String::new();
    let result = load(s);
    assert!(missing_field(result, "LOGS_PUT_URL"));
}

#[test]
fn test_logs_put_url_returns_configured_value() {
    let config = load(complete()).unwrap();
    assert_eq!(config.logs_put_url(), "https://s3.example.com/logs");
}

#[test]
fn first_missing_field_is_reported_in_check_order() {
    let mut s = complete();
    s.execution.run_id = String::new();
    s.workspace.dir = String::new();
    s.execution.poke_url = String::new();
    match load(s) {
        Err(TubeConfigError::RequiredField(f)) => assert_eq!(f, "TUBE__EXECUTION__POKE_URL"),
        other => panic!("unexpected {other:?}"),
    }
}

#[test]
fn empty_get_url_is_allowed() {
    let config = load(complete()).unwrap();
    assert_eq!(config.get_url(), "");
}

#[test]
fn getters_return_configured_values() {
    let config = load(complete()).unwrap();
    assert_eq!(config.status_put_url(), "https://s3.example.com/status");
    assert_eq!(config.poke_url(), "https://backend.example.com/poke");
    assert_eq!(config.run_id(), "run-1");
    assert_eq!(config.node_name(), "build");
    assert_eq!(config.script_path(), "/tmp/user_script.sh");
    assert_eq!(config.workspace_dir(), "/workspace");
    assert_eq!(config.secrets_dir(), "/etc/tube/secrets/env");
    assert_eq!(config.log_upload_interval_ms(), 5000);
    assert_eq!(config.log_level(), LogLevel::Warn);
    assert_eq!(config.execution_log_level(), LogLevel::Info);
}

#[test]
fn levels_parse_names_in_any_case_and_numbers() {
    let cases = [
        ("TRACE", LogLevel::Trace),
        ("Debug", LogLevel::Debug),
        ("error", LogLevel::Error),
        ("1", LogLevel::Error),
        ("2", LogLevel::Warn),
        ("3", LogLevel::Info),
        ("+04", LogLevel::Debug),
        ("5", LogLevel::Trace),
        ("6", LogLevel::Warn),
        ("0", LogLevel::Warn),
        (" info", LogLevel::Warn),
        ("", LogLevel::Warn),
    ];
    for (text, expected) in cases {
        let mut s = complete();
        s.log.level = text.to_string();
        let config = load(s).unwrap();
        assert_eq!(config.log_level(), expected, "level text {text:?}");
    }
}
