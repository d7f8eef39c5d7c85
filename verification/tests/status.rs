use tube::status_update::{time_millis, State, StatusUpdate};
use tube::tube_config::{ExecutionConfig, LogConfig, SecretsConfig, TubeConfig, WorkspaceConfig};

fn config() -> TubeConfig {
    TubeConfig::new(
        ExecutionConfig {
            status_put_url: "s".to_string(),
            poke_url: "p".to_string(),
            run_id: "run-7".to_string(),
            node_name: "deploy".to_string(),
            user_script_path: "/tmp/user_script.sh".to_string(),
            log_level: "info".to_string(),
            logs_put_url: "l".to_string(),
            log_upload_interval_ms: 100,
        },
        LogConfig {
            level: "warn".to_string(),
        },
        WorkspaceConfig {
            get_url: String::new(),
            dir: "/workspace".to_string(),
        },
        SecretsConfig {
            dir: "/etc/tube/secrets/env".to_string(),
        },
    )
    .unwrap()
}

#[test]
fn started_report_has_no_outcome() {
    let u = StatusUpdate::started(&config(), 1000);
    assert_eq!(u.run_id, "run-7");
    assert_eq!(u.node_name, "deploy");
    assert_eq!(u.state, State::Started);
    assert_eq!(u.started_at, 1000);
    assert_eq!(u.finished_at, None);
    assert_eq!(u.success, None);
}

#[test]
fn finished_report_carries_start_and_outcome() {
    let u = StatusUpdate::finished(&config(), 1000, 2500, false);
    assert_eq!(u.state, State::Finished);
    assert_eq!(u.started_at, 1000);
    assert_eq!(u.finished_at, Some(2500));
    assert_eq!(u.success, Some(false));
}

#[test]
fn clock_reads_after_epoch() {
    let t = time_millis().unwrap();
    assert!(t > 1_600_000_000_000);
}
