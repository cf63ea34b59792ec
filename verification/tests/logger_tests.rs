use red::logger::{
    colorize_level, format_log_line, is_heartbeat, level_from_str, level_name, render_record,
    sink_delivers, LogLevel, NoEmptyLineWriter, SinkKind,
};

#[test]
fn level_parsing_is_case_insensitive_and_defaults_to_info() {
    assert_eq!(level_from_str("error"), LogLevel::Error);
    assert_eq!(level_from_str("WARN"), LogLevel::Warn);
    assert_eq!(level_from_str("Info"), LogLevel::Info);
    assert_eq!(level_from_str("debug"), LogLevel::Debug);
    assert_eq!(level_from_str("TRACE"), LogLevel::Trace);
    assert_eq!(level_from_str("loud"), LogLevel::Info);
    assert_eq!(level_from_str(""), LogLevel::Info);
}

#[test]
fn level_names() {
    assert_eq!(level_name(LogLevel::Error), "ERROR");
    assert_eq!(level_name(LogLevel::Warn), "WARN");
    assert_eq!(level_name(LogLevel::Info), "INFO");
    assert_eq!(level_name(LogLevel::Debug), "DEBUG");
    assert_eq!(level_name(LogLevel::Trace), "TRACE");
}

#[test]
fn heartbeat_pattern_is_exact() {
    assert!(is_heartbeat("heartbeat;"));
    assert!(is_heartbeat("  heartbeat;  "));
    assert!(is_heartbeat("into_future;"));
    assert!(is_heartbeat("recv_event;"));
    assert!(!is_heartbeat("heartbeat"));
    assert!(!is_heartbeat("a heartbeat;"));
    assert!(!is_heartbeat("heartbeat; extra"));
    assert!(!is_heartbeat("hello"));
    assert!(!is_heartbeat(""));
    assert!(!is_heartbeat("  "));
}

#[test]
fn heartbeat_suppression_on_main_sinks() {
    for sink in [SinkKind::Console, SinkKind::RedFile] {
        assert!(!sink_delivers(sink, LogLevel::Info, "app", "heartbeat;", LogLevel::Info, true));
        assert!(sink_delivers(sink, LogLevel::Info, "app", "hello", LogLevel::Info, true));
        assert!(sink_delivers(sink, LogLevel::Info, "app", "  ", LogLevel::Info, true));
    }
    assert!(sink_delivers(
        SinkKind::HeartbeatFile,
        LogLevel::Info,
        "app",
        "heartbeat;",
        LogLevel::Info,
        true,
    ));
    assert!(!sink_delivers(
        SinkKind::HeartbeatFile,
        LogLevel::Info,
        "app",
        "heartbeat;",
        LogLevel::Info,
        false,
    ));
    assert!(!sink_delivers(
        SinkKind::HeartbeatFile,
        LogLevel::Info,
        "app",
        "hello",
        LogLevel::Info,
        true,
    ));
    assert!(sink_delivers(
        SinkKind::HeartbeatFile,
        LogLevel::Info,
        "heartbeat",
        "anything",
        LogLevel::Info,
        true,
    ));
}

#[test]
fn serenity_routing() {
    let t = "serenity.gateway";
    for sink in [
        SinkKind::Console,
        SinkKind::RedFile,
        SinkKind::SerenityFile,
        SinkKind::HeartbeatFile,
    ] {
        assert!(!sink_delivers(sink, LogLevel::Info, t, "msg", LogLevel::Info, true));
    }
    assert!(sink_delivers(SinkKind::SerenityFile, LogLevel::Warn, t, "msg", LogLevel::Info, true));
    assert!(!sink_delivers(SinkKind::RedFile, LogLevel::Warn, t, "msg", LogLevel::Info, true));
    assert!(!sink_delivers(SinkKind::Console, LogLevel::Warn, t, "msg", LogLevel::Info, true));
    assert!(sink_delivers(SinkKind::SerenityFile, LogLevel::Error, t, "msg", LogLevel::Info, true));
    assert!(!sink_delivers(SinkKind::SerenityFile, LogLevel::Warn, t, "msg", LogLevel::Info, false));
}

#[test]
fn global_threshold_applies_everywhere() {
    assert!(!sink_delivers(SinkKind::RedFile, LogLevel::Debug, "app", "m", LogLevel::Info, true));
    assert!(sink_delivers(SinkKind::RedFile, LogLevel::Debug, "app", "m", LogLevel::Trace, true));
    assert!(!sink_delivers(
        SinkKind::HeartbeatFile,
        LogLevel::Trace,
        "heartbeat",
        "m",
        LogLevel::Info,
        true,
    ));
    assert!(!sink_delivers(
        SinkKind::SerenityFile,
        LogLevel::Warn,
        "serenity",
        "m",
        LogLevel::Error,
        true,
    ));
}

#[test]
fn formatted_line_shape() {
    let line = format_log_line("2024-01-08 12:00:00", "INFO", "hello");
    assert_eq!(line, "2024-01-08 12:00:00 [INFO] hello");
}

#[test]
fn colorize_level_is_plain_or_sgr() {
    let r = colorize_level(LogLevel::Error);
    assert!(r == "ERROR" || r == "\u{1b}[1;31mERROR\u{1b}[0m");
    let i = colorize_level(LogLevel::Info);
    assert!(i == "INFO" || i == "\u{1b}[1;32mINFO\u{1b}[0m");
}

#[test]
fn writer_drops_blank_lines() {
    let mut w = NoEmptyLineWriter::new();
    let out = w.write(b"2024 [INFO] hello\n");
    assert_eq!(out, b"2024 [INFO] hello\n".to_vec());
    let out = w.write(b"\n");
    assert_eq!(out, Vec::<u8>::new());
    let out = w.write(b"   \n\t\r\n");
    assert_eq!(out, Vec::<u8>::new());
    let out = w.write(b"x\n");
    assert_eq!(out, b"x\n".to_vec());
}

#[test]
fn writer_buffers_partial_lines() {
    let mut w = NoEmptyLineWriter::new();
    let out = w.write(b"part");
    assert_eq!(out, Vec::<u8>::new());
    let out = w.write(b"ial line\nnext");
    assert_eq!(out, b"partial line\n".to_vec());
    let out = w.flush();
    assert_eq!(out, b"next".to_vec());
    let out = w.flush();
    assert_eq!(out, Vec::<u8>::new());
}

#[test]
fn writer_flush_drops_blank_tail() {
    let mut w = NoEmptyLineWriter::new();
    let out = w.write(b"   ");
    assert_eq!(out, Vec::<u8>::new());
    let out = w.flush();
    assert_eq!(out, Vec::<u8>::new());
}

#[test]
fn writer_handles_many_lines_in_one_write() {
    let mut w = NoEmptyLineWriter::new();
    let out = w.write(b"a\n\nb\n \nc");
    assert_eq!(out, b"a\nb\n".to_vec());
    let out = w.flush();
    assert_eq!(out, b"c".to_vec());
}

#[test]
fn heartbeat_scenario_red_log_lines() {
    // Records: "heartbeat;", "hello", "  ".  The main file takes two of them;
    // the heartbeat sidecar takes exactly the heartbeat one.
    let msgs = ["heartbeat;", "hello", "  "];
    let red: Vec<&str> = msgs
        .iter()
        .copied()
        .filter(|m| sink_delivers(SinkKind::RedFile, LogLevel::Info, "app", m, LogLevel::Info, true))
        .collect();
    assert_eq!(red, vec!["hello", "  "]);
    let hb: Vec<&str> = msgs
        .iter()
        .copied()
        .filter(|m| {
            sink_delivers(SinkKind::HeartbeatFile, LogLevel::Info, "app", m, LogLevel::Info, true)
        })
        .collect();
    assert_eq!(hb, vec!["heartbeat;"]);
    // And whatever is formatted and written, no blank line survives.
    let mut w = NoEmptyLineWriter::new();
    let mut written: Vec<u8> = Vec::new();
    for m in red {
        let line = format_log_line("2024-01-08 12:00:00", "INFO", m);
        written.extend(w.write(line.as_bytes()));
        written.extend(w.write(b"\n"));
    }
    written.extend(w.flush());
    let text = String::from_utf8(written).unwrap();
    for line in text.lines() {
        assert!(!line.trim().is_empty());
    }
    assert_eq!(text.lines().count(), 2);
}

#[test]
fn render_record_formats_delivered_records_only() {
    let line = render_record(
        SinkKind::RedFile,
        LogLevel::Info,
        "2024-01-08 12:00:00",
        "INFO",
        "app",
        "hello",
        LogLevel::Info,
        true,
    );
    assert_eq!(line.unwrap(), "2024-01-08 12:00:00 [INFO] hello");
    let none = render_record(
        SinkKind::RedFile,
        LogLevel::Info,
        "2024-01-08 12:00:00",
        "INFO",
        "app",
        "heartbeat;",
        LogLevel::Info,
        true,
    );
    assert!(none.is_none());
    let none = render_record(
        SinkKind::Console,
        LogLevel::Info,
        "2024-01-08 12:00:00",
        "INFO",
        "serenity.http",
        "hello",
        LogLevel::Info,
        true,
    );
    assert!(none.is_none());
}
