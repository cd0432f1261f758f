use spark_dashboard::hec::{HecTarget, SendOutcome};
use spark_dashboard::logs::{
    buffer_lines, build_log_event, display_name, find_container, is_control_line, no_container_message,
    take_trailing, wanted_containers, EngineContainer, LogForwarder, LogsQuery,
};

fn snapshot(endpoint: &str, container_id: Option<&str>) -> EngineContainer {
    EngineContainer { endpoint: endpoint.to_string(), container_id: container_id.map(str::to_string) }
}

#[test]
fn find_container_matches_selected_endpoint() {
    let snaps = vec![
        snapshot("http://localhost:8000", Some("aaa")),
        snapshot("http://localhost:8100", Some("bbb")),
    ];
    assert_eq!(find_container(&snaps, Some("http://localhost:8100")), Some("bbb".to_string()));
}

#[test]
fn find_container_unknown_endpoint_yields_none() {
    let snaps = vec![snapshot("http://localhost:8000", Some("aaa"))];
    assert_eq!(find_container(&snaps, Some("http://localhost:9999")), None);
}

#[test]
fn find_container_selected_native_engine_yields_none() {
    let snaps = vec![
        snapshot("http://localhost:8000", None),
        snapshot("http://localhost:8100", Some("bbb")),
    ];
    assert_eq!(find_container(&snaps, Some("http://localhost:8000")), None);
}

#[test]
fn find_container_default_picks_first_with_container() {
    let snaps = vec![
        snapshot("http://localhost:8000", None),
        snapshot("http://localhost:8100", Some("bbb")),
        snapshot("http://localhost:8200", Some("ccc")),
    ];
    assert_eq!(find_container(&snaps, None), Some("bbb".to_string()));
}

#[test]
fn find_container_empty_state_yields_none() {
    assert_eq!(find_container(&[], None), None);
    assert_eq!(find_container(&[snapshot("http://localhost:8000", None)], None), None);
}

#[test]
fn stdout_single_complete_line_is_emitted() {
    let mut buf = String::new();
    let lines = buffer_lines(&mut buf, b"hello world\n", None);
    assert_eq!(lines, vec!["hello world".to_string()]);
    assert!(buf.is_empty(), "no partial line should remain");
}

#[test]
fn stdout_split_line_is_buffered_until_newline() {
    let mut buf = String::new();
    let lines = buffer_lines(&mut buf, b"partial", None);
    assert!(lines.is_empty(), "no complete line yet");
    assert_eq!(buf, "partial");
    let lines = buffer_lines(&mut buf, b" line\n", None);
    assert_eq!(lines, vec!["partial line".to_string()]);
    assert!(buf.is_empty());
}

#[test]
fn stdout_multiple_lines_in_one_frame() {
    let mut buf = String::new();
    let lines = buffer_lines(&mut buf, b"a\nb\nc\n", None);
    assert_eq!(lines, vec!["a".to_string(), "b".to_string(), "c".to_string()]);
    assert!(buf.is_empty());
}

#[test]
fn stderr_is_line_buffered_and_prefixed() {
    let mut buf = String::new();
    let lines = buffer_lines(&mut buf, b"err ", Some("[stderr] "));
    assert!(lines.is_empty());
    assert_eq!(buf, "err ");
    let lines = buffer_lines(&mut buf, b"half\n", Some("[stderr] "));
    assert_eq!(lines, vec!["[stderr] err half".to_string()]);
    assert!(buf.is_empty());
}

#[test]
fn trailing_partial_stdout_line_is_flushed_on_stream_end() {
    let mut buf = String::new();
    let lines = buffer_lines(&mut buf, b"trailing partial", None);
    assert!(lines.is_empty());
    let flushed = take_trailing(&mut buf, None);
    assert!(buf.is_empty());
    assert_eq!(flushed.as_deref(), Some("trailing partial"));
}

#[test]
fn trailing_partial_stderr_line_is_flushed_with_prefix() {
    let mut buf = String::new();
    let _ = buffer_lines(&mut buf, b"leftover stderr", Some("[stderr] "));
    let flushed = take_trailing(&mut buf, Some("[stderr] "));
    assert_eq!(flushed.as_deref(), Some("[stderr] leftover stderr"));
}

#[test]
fn control_lines_are_recognized() {
    assert!(is_control_line("ERR:No container found for engine x"));
    assert!(is_control_line("LOG:stream attached"));
    assert!(is_control_line("LOG:Stream ended - container stopped"));
    assert!(!is_control_line("INFO:     127.0.0.1:60870 - \"GET /health HTTP/1.1\" 200 OK"));
    assert!(!is_control_line("ERROR: something the engine logged"));
}

#[test]
fn flush_trailing_empty_buffer_emits_nothing() {
    let mut buf = String::new();
    assert_eq!(take_trailing(&mut buf, None), None);
}

#[test]
fn stdout_complete_line_then_partial_in_same_frame() {
    let mut buf = String::new();
    let lines = buffer_lines(&mut buf, b"done\nstart of next", None);
    assert_eq!(lines, vec!["done".to_string()]);
    assert_eq!(buf, "start of next");
}

// ---------------------------------------------------------------------------
// Further cases
// ---------------------------------------------------------------------------

#[test]
fn invalid_utf8_in_a_frame_is_replaced_not_dropped() {
    let mut buf = String::new();
    let lines = buffer_lines(&mut buf, b"ok \xff\n\n", None);
    assert_eq!(lines, vec!["ok \u{fffd}".to_string(), String::new()]);
}

#[test]
fn viewer_messages_name_the_engine() {
    assert_eq!(no_container_message(Some("http://x:1")), "ERR:No container found for engine http://x:1");
    assert_eq!(no_container_message(None), "ERR:No engine container found");
    let q = LogsQuery::default();
    assert!(q.engine.is_none());
}

#[test]
fn containers_are_shown_by_name_or_short_id() {
    assert_eq!(display_name(Some("/vllm-openai"), "0123456789abcdef"), "vllm-openai");
    assert_eq!(display_name(Some("no-slash"), "0123456789abcdef"), "0123456789ab");
    assert_eq!(display_name(None, "abc"), "abc");
}

#[test]
fn forwarded_containers_are_those_of_tracked_engines() {
    let snaps = vec![snapshot("a", Some("c1")), snapshot("b", None), snapshot("c", Some("c2"))];
    assert_eq!(wanted_containers(&snaps), vec!["c1".to_string(), "c2".to_string()]);
}

#[test]
fn forwarder_buffers_skips_control_lines_and_backs_off() {
    let mut f = LogForwarder::new(0);
    assert!(!f.accept_line("vllm", "LOG:stream attached".to_string(), true));
    assert!(!f.accept_line("vllm", "no target".to_string(), false));
    assert!(!f.flush_due(true, 0));
    f.accept_line("vllm", "INFO: ready".to_string(), true);
    assert!(f.flush_due(true, 0));
    assert!(!f.flush_due(false, 0));
    assert_eq!(f.batch(), vec![("vllm".to_string(), "INFO: ready".to_string())]);

    f.record_send(SendOutcome::Retry, 10, 60_000);
    assert!(!f.flush_due(true, 59_000));
    assert!(f.flush_due(true, 60_010));
    assert_eq!(f.batch().len(), 1, "kept for the next attempt");

    f.record_send(SendOutcome::Misconfigured("hec-403".into()), 60_010, 60_000);
    assert!(f.batch().is_empty(), "a rejected batch is dropped");
    assert!(!f.flush_due(true, 60_011));

    f.accept_line("vllm", "again".to_string(), true);
    f.record_send(SendOutcome::Accepted, 200_000, 60_000);
    assert!(f.batch().is_empty());
}

#[test]
fn forwarder_buffer_drops_the_oldest_line_at_the_cap() {
    let mut f = LogForwarder::new(0);
    let mut dropped = 0;
    for i in 0..1002 {
        if f.accept_line("c", format!("line {i}"), true) {
            dropped += 1;
        }
    }
    assert_eq!(dropped, 2);
    let b = f.batch();
    assert_eq!(b.len(), 1000);
    assert_eq!(b[0].1, "line 2");
    assert_eq!(b[999].1, "line 1001");
}

/// A log line becomes a plain event aimed at the given index.
#[test]
fn log_event_is_a_plain_event_for_the_events_index() {
    let event = build_log_event(
        "INFO: engine started",
        "vllm-openai",
        "splunk-ai",
        "main",
        1_723_800_000_123,
    );
    assert_eq!(event.time, 1_723_800_000);
    assert_eq!(event.host, "splunk-ai");
    assert_eq!(event.source, "spark-dashboard");
    assert_eq!(event.sourcetype, "spark_dashboard_engine_log");
    assert_eq!(event.index, "main");
    assert_eq!(event.container, "vllm-openai");
    assert_eq!(event.line, "INFO: engine started");
}

#[test]
fn forwarded_lines_go_to_the_events_index_in_order() {
    let target = HecTarget {
        url: "http://127.0.0.1:8088/services/collector".into(),
        token: "t".into(),
        index: "metrics".into(),
        events_index: "main".into(),
    };
    let mut f = LogForwarder::new(0);
    f.accept_line("a", "first".to_string(), true);
    f.accept_line("b", "second".to_string(), true);
    let events = f.events(&target, "host-1", 5_999);
    assert_eq!(events.len(), 2);
    assert_eq!((events[0].container.as_str(), events[0].line.as_str()), ("a", "first"));
    assert_eq!((events[1].container.as_str(), events[1].line.as_str()), ("b", "second"));
    for e in &events {
        assert_eq!(e.index, "main");
        assert_eq!(e.host, "host-1");
        assert_eq!(e.time, 5);
    }
}
