use tube::tube_config::{ExecutionConfig, LogConfig, SecretsConfig, TubeConfig, WorkspaceConfig};
use tube::workspace::{detect_format, strip_top_level, workspace_source, ArchiveFormat};

#[test]
fn test_detect_format_gzip() {
    assert!(matches!(
        detect_format("https://s3.example.com/repo.tar.gz"),
        ArchiveFormat::Gzip
    ));
    assert!(matches!(
        detect_format("https://s3.example.com/repo.tgz"),
        ArchiveFormat::Gzip
    ));
    assert!(matches!(
        detect_format("https://s3.example.com/archive"),
        ArchiveFormat::Gzip
    ));
}

#[test]
fn test_detect_format_zstd() {
    assert!(matches!(
        detect_format("https://s3.example.com/repo.tar.zst"),
        ArchiveFormat::Zstd
    ));
    assert!(matches!(
        detect_format("https://s3.example.com/repo.zst"),
        ArchiveFormat::Zstd
    ));
}

#[test]
fn detect_format_ignores_case() {
    assert_eq!(detect_format("https://S3.EXAMPLE.COM/REPO.TAR.ZST"), ArchiveFormat::Zstd);
    assert_eq!(detect_format("https://example.com/x.ZsT?sig=1"), ArchiveFormat::Zstd);
    assert_eq!(detect_format("https://example.com/x.zs"), ArchiveFormat::Gzip);
}

fn config_with_get_url(get_url: &str) -> TubeConfig {
    TubeConfig::new(
        ExecutionConfig {
            status_put_url: "s".to_string(),
            poke_url: "p".to_string(),
            run_id: "r".to_string(),
            node_name: "n".to_string(),
            user_script_path: "/tmp/user_script.sh".to_string(),
            log_level: "info".to_string(),
            logs_put_url: "l".to_string(),
            log_upload_interval_ms: 5000,
        },
        LogConfig {
            level: "warn".to_string(),
        },
        WorkspaceConfig {
            get_url: get_url.to_string(),
            dir: "/workspace".to_string(),
        },
        SecretsConfig {
            dir: "/etc/tube/secrets/env".to_string(),
        },
    )
    .unwrap()
}

#[test]
fn empty_get_url_skips_download() {
    assert_eq!(workspace_source(&config_with_get_url("")), None);
    assert_eq!(
        workspace_source(&config_with_get_url("https://s3.example.com/a.tar.zst")),
        Some(ArchiveFormat::Zstd)
    );
    assert_eq!(
        workspace_source(&config_with_get_url("https://s3.example.com/a.tar.gz")),
        Some(ArchiveFormat::Gzip)
    );
}

#[test]
fn strip_top_level_drops_the_wrapping_directory() {
    let comps = vec!["repo-abc123".to_string(), "src".to_string(), "main.rs".to_string()];
    assert_eq!(
        strip_top_level(comps),
        Some(vec!["src".to_string(), "main.rs".to_string()])
    );
    assert_eq!(strip_top_level(vec!["repo-abc123".to_string()]), None);
    assert_eq!(strip_top_level(Vec::<String>::new()), None);
}

#[test]
fn test_error_variant_display() {
    let io_err = std::io::Error::new(std::io::ErrorKind::Other, "boom");
    let err = tube::workspace::WorksapceError::Io(io_err);
    assert!(
        err
            .message()
            .contains("Archive or Decompression IO failed")
    );
}

#[test]
fn error_messages_carry_the_failure() {
    let io_err = std::io::Error::new(std::io::ErrorKind::Other, "boom");
    let err = tube::workspace::WorksapceError::Io(io_err);
    assert_eq!(err.message(), "Archive or Decompression IO failed: boom");
    let s3 = tube::workspace::WorksapceError::S3("403".to_string(), "denied".to_string());
    assert_eq!(s3.message(), "S3 download failed with status 403: denied");
    let wrapped = tube::TubeError::Workspace(s3);
    assert_eq!(
        wrapped.message(),
        "Workspace error: S3 download failed with status 403: denied"
    );
}

#[test]
fn refused_download_keeps_status_and_body() {
    let e = tube::workspace::s3_refusal("404".to_string(), Some("NoSuchKey".to_string()));
    assert_eq!(e.message(), "S3 download failed with status 404: NoSuchKey");
    let e = tube::workspace::s3_refusal("500".to_string(), None);
    assert_eq!(
        e.message(),
        "S3 download failed with status 500: Could not read error body"
    );
}
