use tube::execution::{
    node_succeeded, script_outcome, Capture, CaptureEvent, CaptureNext, ExecutionError, LogBuffer,
    Stream, MAX_LOG_BYTES,
};
use tube::secrets::Secrets;

#[test]
fn test_log_buffer_fifo_eviction_unit() {
    let mut buf = LogBuffer::new();
    let big_line = "x".repeat(1024 * 1024);
    for i in 0..15 {
        buf.push("stdout", &format!("ENTRY_{i:02}_{big_line}"));
    }
    assert!(buf.total_bytes() <= MAX_LOG_BYTES);
    let bytes = buf.into_bytes();
    let text = String::from_utf8(bytes).unwrap();
    assert!(
        !text.contains("ENTRY_00_"),
        "earliest entry should be evicted"
    );
    assert!(
        text.contains("ENTRY_14_"),
        "most recent entry should be retained"
    );
}

#[test]
fn test_log_buffer_oversized_single_entry_keeps_tail() {
    let mut buf = LogBuffer::new();
    buf.push("stdout", "earlier line");
    let huge = "y".repeat(MAX_LOG_BYTES + 1024);
    buf.push("stdout", &huge);
    assert!(buf.total_bytes() <= MAX_LOG_BYTES);
    let bytes = buf.into_bytes();
    assert!(bytes.len() <= MAX_LOG_BYTES);
    assert!(
        !bytes.starts_with(b"["),
        "tail-truncated entry should not begin with the original timestamp"
    );
    assert!(
        bytes.ends_with(b"y\n"),
        "the surviving content should be the tail of the oversized line"
    );
}

#[test]
fn entry_format_is_timestamp_stream_line() {
    let mut buf = LogBuffer::new();
    buf.push_at(1234, "stdout", "hello");
    assert_eq!(buf.snapshot(), b"[1234] [stdout] hello\n".to_vec());
    assert_eq!(buf.total_bytes(), 22);
}

#[test]
fn entry_format_zero_and_large_timestamps() {
    let mut buf = LogBuffer::new();
    buf.push_at(0, "stderr", "");
    buf.push_at(1700000000123, "stdout", "é");
    assert_eq!(
        buf.snapshot(),
        "[0] [stderr] \n[1700000000123] [stdout] é\n".as_bytes().to_vec()
    );
}

#[test]
fn push_stamps_with_current_time() {
    let mut buf = LogBuffer::new();
    buf.push("stdout", "now");
    let text = String::from_utf8(buf.snapshot()).unwrap();
    assert!(text.starts_with('['));
    assert!(text.ends_with("] [stdout] now\n"));
    let stamp: u128 = text[1..text.find(']').unwrap()].parse().unwrap();
    assert!(stamp > 1_600_000_000_000);
}

#[test]
fn eviction_drops_only_what_it_must() {
    let mut buf = LogBuffer::new();
    // three entries of 4 MiB each: the third push must evict exactly the first
    let line = "a".repeat(4 * 1024 * 1024 - 20);
    buf.push_at(1, "stdout", &line);
    buf.push_at(2, "stdout", &line);
    let two = buf.total_bytes();
    buf.push_at(3, "stdout", &line);
    assert_eq!(buf.total_bytes(), two);
    let text = String::from_utf8(buf.snapshot()).unwrap();
    assert!(text.starts_with("[2] [stdout] "));
    assert!(text.contains("[3] [stdout] "));
}

#[test]
fn snapshot_is_suffix_of_history_and_ends_with_latest() {
    let mut buf = LogBuffer::new();
    let mut history: Vec<u8> = Vec::new();
    for i in 0..40u128 {
        let line = "z".repeat(300 * 1024);
        buf.push_at(i, "stdout", &line);
        history.extend_from_slice(format!("[{i}] [stdout] {line}\n").as_bytes());
        if i % 13 == 0 || i == 39 {
            let snap = buf.snapshot();
            assert!(snap.len() <= MAX_LOG_BYTES);
            assert!(history.ends_with(&snap));
            assert!(snap.ends_with(format!("[{i}] [stdout] {line}\n").as_bytes()));
        }
    }
    assert!(buf.total_bytes() < history.len());
}

#[test]
fn into_bytes_matches_snapshot() {
    let mut buf = LogBuffer::new();
    buf.push_at(5, "stdout", "one");
    let single = buf.snapshot();
    let mut again = LogBuffer::new();
    again.push_at(5, "stdout", "one");
    assert_eq!(again.into_bytes(), single);
    buf.push_at(6, "stderr", "two");
    let both = buf.snapshot();
    assert_eq!(buf.into_bytes(), both);
}

#[test]
fn empty_buffer_reports_empty() {
    let buf = LogBuffer::default();
    assert!(buf.is_empty());
    assert_eq!(buf.total_bytes(), 0);
    assert!(buf.snapshot().is_empty());
    assert!(buf.into_bytes().is_empty());
}

#[test]
fn next_upload_skips_empty_and_unchanged() {
    let mut buf = LogBuffer::new();
    assert!(buf.next_upload(0).is_none());
    buf.push_at(9, "stdout", "x");
    let (n, bytes) = buf.next_upload(0).unwrap();
    assert_eq!(n, buf.total_bytes());
    assert_eq!(bytes, b"[9] [stdout] x\n".to_vec());
    assert!(buf.next_upload(n).is_none());
    buf.push_at(10, "stdout", "y");
    assert!(buf.next_upload(n).is_some());
}

#[test]
fn script_outcome_maps_exit_status() {
    assert!(matches!(script_outcome(Some(0), None), Ok(0)));
    assert!(matches!(script_outcome(Some(42), None), Ok(42)));
    assert!(matches!(
        script_outcome(None, Some(9)),
        Err(ExecutionError::Signal(9))
    ));
    assert!(matches!(
        script_outcome(None, None),
        Err(ExecutionError::Signal(-1))
    ));
}

#[test]
fn node_succeeds_only_on_exit_zero() {
    assert!(node_succeeded(Some(0)));
    assert!(!node_succeeded(Some(1)));
    assert!(!node_succeeded(None));
}

#[test]
fn pushes_that_fit_are_kept_in_order_across_streams() {
    let mut buf = LogBuffer::new();
    let mut expected: Vec<u8> = Vec::new();
    for i in 0..20u128 {
        let stream = if i % 3 == 0 { "stderr" } else { "stdout" };
        let line = format!("line {i}");
        buf.push_at(i * 7, stream, &line);
        expected.extend_from_slice(format!("[{}] [{stream}] {line}\n", i * 7).as_bytes());
    }
    let before = buf.total_bytes();
    assert_eq!(buf.snapshot(), expected);
    assert_eq!(buf.total_bytes(), before);
    assert_eq!(before, expected.len());
}

#[test]
fn capture_records_each_line_once_masked_and_labelled() {
    let secrets = Secrets::from_files(vec![("TOKEN".to_string(), "s3cret".to_string())]);
    let mut buf = LogBuffer::new();
    let mut state = Capture::start();
    let events = vec![
        CaptureEvent::Line(Stream::Stdout, "hello s3cret".to_string()),
        CaptureEvent::Line(Stream::Stderr, "oops".to_string()),
        CaptureEvent::Closed(Stream::Stdout),
        CaptureEvent::Line(Stream::Stderr, "late".to_string()),
    ];
    for ev in events {
        match buf.capture_step(&secrets, state, ev) {
            CaptureNext::Continue(next) => state = next,
            other => panic!("unexpected {other:?}"),
        }
    }
    assert!(!state.stdout_open);
    assert!(state.stderr_open);
    let before = buf.total_bytes();
    assert_eq!(
        buf.capture_step(&secrets, state, CaptureEvent::Closed(Stream::Stderr)),
        CaptureNext::Finished
    );
    assert_eq!(buf.total_bytes(), before);
    let text = String::from_utf8(buf.snapshot()).unwrap();
    let lines: Vec<&str> = text.lines().collect();
    assert_eq!(lines.len(), 3);
    assert!(lines[0].ends_with("] [stdout] hello ***"));
    assert!(lines[1].ends_with("] [stderr] oops"));
    assert!(lines[2].ends_with("] [stderr] late"));
    assert_eq!(
        buf.capture_step(&secrets, Capture::start(), CaptureEvent::ReadFailed),
        CaptureNext::Failed
    );
}
