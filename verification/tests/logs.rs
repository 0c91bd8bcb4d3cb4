use buildermon::logs::{terminal_step, TerminalStep};
use buildermon::logs::{
    copy_lines, escape_html, log_chunk, log_seek_position, parse_log_bytes, parse_log_text,
    render_line, terminal_status, LogLine, LogStreamPayload, LogWatcher, SharedLogPayload,
    TerminalFeed, LOG_IDLE_REFRESH_MAX_MS, LOG_REFRESH_MS, LOG_WATCH_MAX_MS, LOG_WATCH_MIN_MS,
    MAX_INITIAL_READ_BYTES, MAX_LOG_LINES,
};

fn line(raw: &str) -> LogLine {
    LogLine { raw: raw.to_string(), html: raw.to_string() }
}

fn raws(lines: &[LogLine]) -> Vec<String> {
    lines.iter().map(|l| l.raw.clone()).collect()
}

#[test]
fn escape_html_writes_entities() {
    assert_eq!(escape_html("a<b>&c"), "a&lt;b&gt;&amp;c");
    assert_eq!(escape_html("&lt;"), "&amp;lt;");
    assert_eq!(escape_html("plain 'q' \"d\""), "plain 'q' \"d\"");
}

#[test]
fn escaped_text_has_no_tags() {
    let e = escape_html("<script>alert(1)</script>");
    assert!(!e.contains('<'));
    assert!(!e.contains('>'));
}

#[test]
fn ansi_styling_becomes_html() {
    assert_eq!(render_line("\u{1b}[1mBold"), "<b>Bold</b>");
    assert_eq!(render_line("a<b"), "a&lt;b");
}

#[test]
fn invalid_ansi_falls_back_to_escaping() {
    assert_eq!(render_line("\u{1b}[38;7mX<"), "\u{1b}[38;7mX&lt;");
}

#[test]
fn log_text_drops_empty_lines_and_carriage_returns() {
    let lines = parse_log_text("first\r\r\n\n\r\nsecond\nthird");
    assert_eq!(raws(&lines), vec!["first", "second", "third"]);
    assert_eq!(lines[1].html, "second");
    assert!(parse_log_text("").is_empty());
    assert!(parse_log_text("\n\r\n").is_empty());
}

#[test]
fn log_bytes_are_decoded_lossily() {
    let lines = parse_log_bytes(b"ok\n\xfe\xff\n");
    assert_eq!(raws(&lines), vec!["ok".to_string(), "\u{FFFD}\u{FFFD}".to_string()]);
}

#[test]
fn seek_position_rules() {
    assert_eq!(log_seek_position(0, 100), 0);
    assert_eq!(log_seek_position(0, MAX_INITIAL_READ_BYTES + 10), 10);
    assert_eq!(log_seek_position(50, 40), 0);
    assert_eq!(log_seek_position(30, 40), 30);
    assert_eq!(log_seek_position(40, 40), 40);
}

#[test]
fn chunk_reports_new_offset() {
    let (lines, off) = log_chunk(10, b"a\nb\n");
    assert_eq!(raws(&lines), vec!["a", "b"]);
    assert_eq!(off, 14);
    let (lines, off) = log_chunk(7, b"");
    assert!(lines.is_empty());
    assert_eq!(off, 7);
}

#[test]
fn watcher_backs_off_while_idle() {
    let mut w = LogWatcher::new();
    assert_eq!(w.wait_ms, LOG_WATCH_MIN_MS);
    assert!(w.on_chunk(Some((Vec::new(), 0)), 5).is_none());
    assert_eq!(w.wait_ms, 1400);
    assert!(w.on_chunk(None, 5).is_none());
    assert_eq!(w.wait_ms, 1900);
    for _ in 0..20 {
        w.on_chunk(None, 5);
    }
    assert_eq!(w.wait_ms, LOG_WATCH_MAX_MS);
    assert_eq!(w.last_build_epoch, None);
}

#[test]
fn watcher_sends_new_lines_and_keeps_snapshot() {
    let mut w = LogWatcher::new();
    w.wait_ms = 3000;
    let sent = w.on_chunk(Some((vec![line("a"), line("b")], 42)), 77).unwrap();
    assert!(!sent.replace);
    assert_eq!(raws(&sent.lines), vec!["a", "b"]);
    assert_eq!(sent.offset, 42);
    assert_eq!(sent.epoch_seconds, Some(77));
    assert_eq!(w.wait_ms, LOG_WATCH_MIN_MS);
    let snap = w.snapshot();
    assert!(snap.replace);
    assert_eq!(raws(&snap.lines), vec!["a", "b"]);
    assert_eq!(snap.offset, 42);
    assert_eq!(snap.epoch_seconds, Some(77));
    assert!(w.on_chunk(None, 99).is_none());
    assert_eq!(w.log_offset, 42);
}

#[test]
fn watcher_keeps_latest_six_hundred_lines() {
    let mut w = LogWatcher::new();
    let batch: Vec<LogLine> = (0..400).map(|i| line(&i.to_string())).collect();
    w.on_chunk(Some((batch, 1)), 1);
    let batch: Vec<LogLine> = (400..700).map(|i| line(&i.to_string())).collect();
    w.on_chunk(Some((batch, 2)), 2);
    assert_eq!(w.log_lines.len(), MAX_LOG_LINES);
    assert_eq!(w.log_lines[0].raw, "100");
    assert_eq!(w.log_lines[599].raw, "699");
}

#[test]
fn terminal_polls_and_backs_off() {
    let mut t = TerminalFeed::new();
    t.on_poll(Some((Vec::new(), 5)), 100);
    assert!(t.connected);
    assert_eq!(t.offset, 5);
    assert_eq!(t.poll_delay_ms, 1500);
    assert_eq!(t.last_build_epoch, None);
    t.on_poll(None, 100);
    assert!(!t.connected);
    assert_eq!(t.poll_delay_ms, 2000);
    assert_eq!(t.offset, 5);
    for _ in 0..10 {
        t.on_poll(None, 100);
    }
    assert_eq!(t.poll_delay_ms, LOG_IDLE_REFRESH_MAX_MS);
    t.on_poll(Some((vec![line("x")], 9)), 123);
    assert_eq!(t.poll_delay_ms, LOG_REFRESH_MS);
    assert_eq!(t.last_build_epoch, Some(123));
    assert_eq!(raws(&t.lines), vec!["x"]);
    assert_eq!(t.offset, 9);
}

#[test]
fn terminal_applies_stream_payloads() {
    let mut t = TerminalFeed::new();
    let shared = t.on_stream_payload(
        LogStreamPayload { replace: true, lines: vec![line("a")], offset: 3, epoch_seconds: None },
        11,
    );
    assert!(t.connected);
    assert_eq!(shared.seq, 11);
    assert_eq!(raws(&shared.lines), vec!["a"]);
    assert_eq!(shared.offset, 3);
    assert_eq!(shared.epoch_seconds, None);
    t.on_stream_payload(
        LogStreamPayload { replace: false, lines: vec![line("b")], offset: 4, epoch_seconds: Some(50) },
        12,
    );
    assert_eq!(raws(&t.lines), vec!["a", "b"]);
    assert_eq!(t.last_build_epoch, Some(50));
    t.on_stream_payload(
        LogStreamPayload { replace: true, lines: vec![line("c")], offset: 1, epoch_seconds: None },
        13,
    );
    assert_eq!(raws(&t.lines), vec!["c"]);
    assert_eq!(t.offset, 1);
    assert_eq!(t.last_build_epoch, Some(50));
    t.disconnect();
    assert!(!t.connected);
}

#[test]
fn terminal_follows_shared_state() {
    let mut t = TerminalFeed::new();
    t.last_build_epoch = Some(5);
    t.on_shared(Some(SharedLogPayload { seq: 1, lines: vec![line("s")], offset: 8, epoch_seconds: None }));
    assert!(t.connected);
    assert_eq!(raws(&t.lines), vec!["s"]);
    assert_eq!(t.offset, 8);
    assert_eq!(t.last_build_epoch, Some(5));
    t.on_shared(None);
    assert!(!t.connected);
    assert_eq!(raws(&t.lines), vec!["s"]);
}

#[test]
fn terminal_status_badges() {
    assert_eq!(terminal_status(true, true, true), ("terminal-status disconnected", "paused"));
    assert_eq!(terminal_status(false, true, true), ("terminal-status connected", "live"));
    assert_eq!(terminal_status(false, true, false), ("terminal-status connected", "shared"));
    assert_eq!(terminal_status(false, false, true), ("terminal-status disconnected", "waiting"));
}

#[test]
fn copied_lines_are_equal() {
    let lines = vec![line("x"), line("y")];
    assert_eq!(raws(&copy_lines(&lines)), vec!["x", "y"]);
}

#[test]
fn terminal_steps() {
    assert_eq!(terminal_step(true, true), TerminalStep::Pause);
    assert_eq!(terminal_step(true, false), TerminalStep::Pause);
    assert_eq!(terminal_step(false, false), TerminalStep::FollowShared);
    assert_eq!(terminal_step(false, true), TerminalStep::Fetch);
}

#[test]
fn reading_on_from_offset_loses_no_line() {
    let f = "one\ntwo \u{e9}\n".as_bytes();
    let g = b"three\r\nfour";
    let pos1 = log_seek_position(0, f.len() as u64);
    assert_eq!(pos1, 0);
    let (l1, o1) = log_chunk(pos1, f);
    let all: Vec<u8> = [f, &g[..]].concat();
    let pos2 = log_seek_position(o1, all.len() as u64);
    assert_eq!(pos2, f.len() as u64);
    let (l2, o2) = log_chunk(pos2, g);
    assert_eq!(o2, all.len() as u64);
    let (whole, _) = log_chunk(0, &all);
    let mut joined = raws(&l1);
    joined.extend(raws(&l2));
    assert_eq!(joined, raws(&whole));
    assert_eq!(joined, vec!["one", "two \u{e9}", "three", "four"]);
}
